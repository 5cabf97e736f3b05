use vstd::prelude::*;

verus! {

/// The integer type one spectrum bin is sent as.
pub type BinValue = i16;

/// Bytes per bin value.
pub const BIN_VALUE_SIZE: usize = 2;

/// FFT input length (samples).
pub const FFT_INPUT: usize = 4096;

/// Spectrum bins produced per FFT.
pub const FFT_BINS: usize = FFT_INPUT / 2;

/// UART baud rate between the Daisy and the ESP32.
pub const BAUDRATE: u32 = 2_000_000;

/// Bytes one spectrum occupies on the wire.
pub const FFT_BYTES_TAKEN: usize = FFT_BINS * BIN_VALUE_SIZE;

/// Size of the COBS encode buffer for one spectrum.
pub const COBS_BUF: usize = BIN_VALUE_SIZE * FFT_BINS + (BIN_VALUE_SIZE * FFT_BINS + 253) / 254 + 10;

/// Byte that ends each COBS frame on the wire.
pub const FRAME_DELIM: u8 = 0x00;

/// FFT input size on the Daisy side.
pub const FFT_N: usize = FFT_BINS * 2;

/// Audio sample rate in Hz.
pub const SAMPLE_RATE: usize = 48000;

/// Whether the device sends dB values (it sends linear magnitudes).
pub const INPUT_IS_DB: bool = false;

/// Lowest dB value the spectrum display shows.
pub const DB_MIN: i32 = -100;

/// Highest dB value the spectrum display shows.
pub const DB_MAX: i32 = 50;

/// Lowest frequency (Hz) on the display's log axis.
pub const MIN_DISPLAY_FREQ: usize = 20;

/// Bins quieter than this (dB) are not labelled as peaks.
pub const PEAK_MIN_DB: i32 = -82;

/// How many peaks the display labels.
pub const PEAK_COUNT: usize = 4;

/// Whether bins are sent as floats (only when a bin value is four bytes).
pub const BIN_IS_FLOAT: bool = BIN_VALUE_SIZE == 4;

/// Mute switch state carried by a command.
#[derive(Debug, PartialEq, Eq, Structural, Clone, Copy)]
pub enum Mute {
    Mute,
    Unmute,
}

/// Commands the ESP32 sends to the Daisy.
#[derive(Debug, PartialEq, Eq, Structural, Clone, Copy)]
pub enum CommandUart {
    Mute(Mute),
}

/// The command in force after a block: a newly received one replaces the old.
pub fn next_command(current: CommandUart, received: Option<CommandUart>) -> (r: CommandUart)
    ensures
        r == match received {
            Some(c) => c,
            None => current,
        },
{
    match received {
        Some(c) => c,
        None => current,
    }
}

/// Whether the output block is to be silenced under `command`.
pub fn silences_output(command: CommandUart) -> (r: bool)
    ensures
        r <==> command == CommandUart::Mute(Mute::Mute),
{
    match command {
        CommandUart::Mute(Mute::Mute) => true,
        CommandUart::Mute(Mute::Unmute) => false,
    }
}

/// Low byte of a bin value's 16-bit pattern.
pub open spec fn bin_low(v: i16) -> u8 {
    ((v as int % 0x1_0000) % 0x100) as u8
}

/// High byte of a bin value's 16-bit pattern.
pub open spec fn bin_high(v: i16) -> u8 {
    ((v as int % 0x1_0000) / 0x100) as u8
}

/// Bin values laid out as bytes, each least significant byte first.
pub open spec fn bins_le_bytes(bins: Seq<i16>) -> Seq<u8> {
    Seq::new(
        bins.len() * 2,
        |j: int| if j % 2 == 0 { bin_low(bins[j / 2]) } else { bin_high(bins[j / 2]) },
    )
}

/// Bin values laid out as bytes, each most significant byte first.
pub open spec fn bins_be_bytes(bins: Seq<i16>) -> Seq<u8> {
    Seq::new(
        bins.len() * 2,
        |j: int| if j % 2 == 0 { bin_high(bins[j / 2]) } else { bin_low(bins[j / 2]) },
    )
}

/// The 16-bit two's-complement value whose pattern is `hi:lo`.
pub open spec fn bin_of(lo: u8, hi: u8) -> i16 {
    let u = hi * 0x100 + lo;
    (if u >= 0x8000 { u - 0x1_0000 } else { u }) as i16
}

/// Bin values read from byte pairs, least significant byte first.
pub open spec fn bins_from_le(bytes: Seq<u8>) -> Seq<i16> {
    Seq::new(bytes.len() / 2, |i: int| bin_of(bytes[2 * i], bytes[2 * i + 1]))
}

/// Bin values read from byte pairs, most significant byte first.
pub open spec fn bins_from_be(bytes: Seq<u8>) -> Seq<i16> {
    Seq::new(bytes.len() / 2, |i: int| bin_of(bytes[2 * i + 1], bytes[2 * i]))
}

/// Calls `bytemuck::cast` from bin values to bytes. Trusted: the cast copies
/// the values' memory image, so each value appears as its two bytes in the
/// machine's byte order; which order that is is left open.
#[verifier::external_body]
fn cast_bins_to_bytes(arr: [BinValue; FFT_BINS]) -> (r: [u8; FFT_BYTES_TAKEN])
    ensures
        r@ == bins_le_bytes(arr@) || r@ == bins_be_bytes(arr@),
{
    bytemuck::cast(arr)
}

/// Calls `bytemuck::cast` from bytes to bin values. Trusted: each value is
/// read from its two bytes in the machine's byte order; which order that is
/// is left open.
#[verifier::external_body]
fn cast_bytes_to_bins(arr: [u8; FFT_BYTES_TAKEN]) -> (r: [BinValue; FFT_BINS])
    ensures
        r@ == bins_from_le(arr@) || r@ == bins_from_be(arr@),
{
    bytemuck::cast(arr)
}

/// One spectrum as it travels over the UART.
pub struct FFTUart {
    pub arr: [u8; FFT_BYTES_TAKEN],
}

impl FFTUart {
    /// Wraps already-encoded spectrum bytes.
    pub fn new_bytes(arr: [u8; FFT_BYTES_TAKEN]) -> (r: Self)
        ensures
            r.arr == arr,
    {
        Self { arr }
    }

    /// The encoded spectrum bytes.
    pub fn into_bytes(self) -> (r: [u8; FFT_BYTES_TAKEN])
        ensures
            r == self.arr,
    {
        self.arr
    }

    /// Encodes bin values as their in-memory bytes (machine byte order).
    pub fn new(arr: [BinValue; FFT_BINS]) -> (r: Self)
        ensures
            r.arr@ == bins_le_bytes(arr@) || r.arr@ == bins_be_bytes(arr@),
    {
        let arr = cast_bins_to_bytes(arr);
        Self { arr }
    }

    /// Decodes the bin values from their in-memory bytes (machine byte order).
    pub fn into(self) -> (r: [BinValue; FFT_BINS])
        ensures
            r@ == bins_from_le(self.arr@) || r@ == bins_from_be(self.arr@),
    {
        cast_bytes_to_bins(self.arr)
    }
}

/// Reading bins back in the byte order they were written in returns them.
pub proof fn lemma_bin_bytes_round_trip(bins: Seq<i16>)
    ensures
        bins_from_le(bins_le_bytes(bins)) == bins,
        bins_from_be(bins_be_bytes(bins)) == bins,
{
    let le = bins_le_bytes(bins);
    let be = bins_be_bytes(bins);
    assert forall|i: int| 0 <= i < bins.len() implies #[trigger] bins_from_le(le)[i] == bins[i]
        && bins_from_be(be)[i] == bins[i] by {
        let v = bins[i];
        assert(le[2 * i] == bin_low(v) && le[2 * i + 1] == bin_high(v));
        assert(be[2 * i] == bin_high(v) && be[2 * i + 1] == bin_low(v));
        let u = v as int % 0x1_0000;
        assert(bin_high(v) * 0x100 + bin_low(v) == u) by (nonlinear_arith)
            requires
                0 <= u < 0x1_0000,
                bin_high(v) == u / 0x100,
                bin_low(v) == u % 0x100,
        ;
        if v < 0 {
            vstd::arithmetic::div_mod::lemma_mod_multiples_vanish(1, v as int, 0x1_0000);
        }
    }
    assert(bins_from_le(le) =~= bins);
    assert(bins_from_be(be) =~= bins);
}

/// In the little-endian layout value `i` is bytes `2i` (low) and `2i + 1`
/// (high); in the big-endian layout the high byte comes first. Either way the
/// two bytes, weighted 1 and 256, agree with the value modulo 2^16.
pub proof fn lemma_bin_byte_layouts(bins: Seq<i16>)
    ensures
        bins_le_bytes(bins).len() == 2 * bins.len(),
        bins_be_bytes(bins).len() == 2 * bins.len(),
        forall|i: int|
            0 <= i < bins.len() ==> {
                &&& (bins_le_bytes(bins)[2 * i] as int + 0x100 * bins_le_bytes(bins)[2 * i + 1] as int
                    - #[trigger] bins[i] as int) % 0x1_0000 == 0
                &&& (bins_be_bytes(bins)[2 * i + 1] as int + 0x100 * bins_be_bytes(bins)[2 * i] as int
                    - bins[i] as int) % 0x1_0000 == 0
            },
{
    assert forall|i: int| 0 <= i < bins.len() implies {
        &&& (bins_le_bytes(bins)[2 * i] as int + 0x100 * bins_le_bytes(bins)[2 * i + 1] as int
            - #[trigger] bins[i] as int) % 0x1_0000 == 0
        &&& (bins_be_bytes(bins)[2 * i + 1] as int + 0x100 * bins_be_bytes(bins)[2 * i] as int
            - bins[i] as int) % 0x1_0000 == 0
    } by {
        let v = bins[i];
        assert((2 * i) / 2 == i && (2 * i) % 2 == 0);
        assert((2 * i + 1) / 2 == i && (2 * i + 1) % 2 == 1);
        let u = v as int % 0x1_0000;
        assert(bin_high(v) * 0x100 + bin_low(v) == u) by (nonlinear_arith)
            requires
                0 <= u < 0x1_0000,
                bin_high(v) == u / 0x100,
                bin_low(v) == u % 0x100,
        ;
        if v < 0 {
            vstd::arithmetic::div_mod::lemma_mod_multiples_vanish(1, v as int, 0x1_0000);
            assert(u - v == 0x1_0000);
        } else {
            assert(u - v == 0);
        }
    }
}

} // verus!
