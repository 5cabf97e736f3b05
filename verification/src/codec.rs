use vstd::prelude::*;
use vstd::arithmetic::div_mod::lemma_mod_multiples_vanish;

verus! {

/// Two's-complement reading of a 24-bit word `raw` (which lies in `0..2^24`).
pub open spec fn sign_extend_24(raw: int) -> int {
    if raw < 0x80_0000 {
        raw
    } else {
        raw - 0x100_0000
    }
}

/// The 24-bit two's-complement word that encodes `s` (its value modulo `2^24`).
pub open spec fn wrap_24(s: int) -> int {
    s % 0x100_0000
}

/// `s` is representable as a signed 24-bit sample.
pub open spec fn in_24bit_range(s: int) -> bool {
    -0x80_0000 <= s < 0x80_0000
}

/// Value of three bytes read most significant first.
pub open spec fn be24(b0: u8, b1: u8, b2: u8) -> int {
    b0 * 0x1_0000 + b1 * 0x100 + b2
}

/// Byte `k` (0, 1 or 2, most significant first) of the 24-bit word `w`.
pub open spec fn word_byte(w: int, k: int) -> u8 {
    if k == 0 {
        (w / 0x1_0000) as u8
    } else if k == 1 {
        ((w / 0x100) % 0x100) as u8
    } else {
        (w % 0x100) as u8
    }
}

/// Samples read from consecutive 3-byte groups; a trailing partial group is ignored.
pub open spec fn unpacked(bytes: Seq<u8>) -> Seq<i32> {
    Seq::new(
        bytes.len() / 3,
        |i: int| sign_extend_24(be24(bytes[3 * i], bytes[3 * i + 1], bytes[3 * i + 2])) as i32,
    )
}

/// Each sample written as the three bytes of its 24-bit word.
pub open spec fn packed(samples: Seq<i32>) -> Seq<u8> {
    Seq::new(samples.len() * 3, |j: int| word_byte(wrap_24(samples[j / 3] as int), j % 3))
}

/// The sample a codec word carries: its low 24 bits in two's complement.
pub open spec fn codec_value(y: u32) -> int {
    sign_extend_24(y as int % 0x100_0000)
}

proof fn lemma_word_bytes(w: int)
    requires
        0 <= w < 0x100_0000,
    ensures
        be24(word_byte(w, 0), word_byte(w, 1), word_byte(w, 2)) == w,
        0 <= w / 0x1_0000 < 0x100,
{
    assert(0 <= w / 0x1_0000 < 0x100 && w == (w / 0x1_0000) * 0x1_0000 + ((w / 0x100) % 0x100)
        * 0x100 + w % 0x100) by (nonlinear_arith)
        requires
            0 <= w < 0x100_0000,
    ;
}

proof fn lemma_bytes_word(b0: u8, b1: u8, b2: u8)
    ensures
        0 <= be24(b0, b1, b2) < 0x100_0000,
        word_byte(be24(b0, b1, b2), 0) == b0,
        word_byte(be24(b0, b1, b2), 1) == b1,
        word_byte(be24(b0, b1, b2), 2) == b2,
{
    let w = be24(b0, b1, b2);
    assert(0 <= w < 0x100_0000 && w / 0x1_0000 == b0 && (w / 0x100) % 0x100 == b1 && w % 0x100
        == b2) by (nonlinear_arith)
        requires
            w == b0 * 0x1_0000 + b1 * 0x100 + b2,
            0 <= b0 < 0x100,
            0 <= b1 < 0x100,
            0 <= b2 < 0x100,
    ;
}

/// A signed 24-bit sample survives being written as a 24-bit word and read back.
pub proof fn lemma_sample_round_trip(s: int)
    requires
        in_24bit_range(s),
    ensures
        0 <= wrap_24(s) < 0x100_0000,
        sign_extend_24(wrap_24(s)) == s,
{
    if s < 0 {
        lemma_mod_multiples_vanish(1, s, 0x100_0000);
    }
}

/// A 24-bit word survives being read as a signed sample and written back.
pub proof fn lemma_word_round_trip(w: int)
    requires
        0 <= w < 0x100_0000,
    ensures
        in_24bit_range(sign_extend_24(w)),
        wrap_24(sign_extend_24(w)) == w,
{
    if w >= 0x80_0000 {
        lemma_mod_multiples_vanish(-1, w, 0x100_0000);
    }
}

/// Decodes big-endian 24-bit samples, three bytes each, sign-extending every
/// one to an `i32`. Trailing bytes that do not fill a group are ignored.
pub fn unpack_24le_samples(in_bytes: &[u8]) -> (out: Vec<i32>)
    ensures
        out@ == unpacked(in_bytes@),
{
    let n = in_bytes.len() / 3;
    let mut out: Vec<i32> = Vec::with_capacity(n);
    let mut k: usize = 0;
    while k < n
        invariant
            n == in_bytes@.len() / 3,
            3 * n <= in_bytes@.len() <= usize::MAX,
            k <= n,
            out@ =~= unpacked(in_bytes@).take(k as int),
        decreases n - k,
    {
        let b0 = in_bytes[3 * k];
        let b1 = in_bytes[3 * k + 1];
        let b2 = in_bytes[3 * k + 2];
        let raw: u32 = b0 as u32 * 0x1_0000 + b1 as u32 * 0x100 + b2 as u32;
        let s: i32 = if raw >= 0x80_0000 {
            raw as i32 - 0x100_0000
        } else {
            raw as i32
        };
        out.push(s);
        k += 1;
    }
    out
}

/// Writes each sample as the three bytes (most significant first) of its
/// 24-bit two's-complement word; bits above the low 24 are dropped.
pub fn pack_24le_samples(in_samples: &[i32]) -> (out: Vec<u8>)
    requires
        in_samples@.len() * 3 <= usize::MAX,
    ensures
        out@ == packed(in_samples@),
{
    let n = in_samples.len();
    let mut out: Vec<u8> = Vec::with_capacity(n * 3);
    let mut k: usize = 0;
    while k < n
        invariant
            n == in_samples@.len(),
            n * 3 <= usize::MAX,
            k <= n,
            out@ =~= packed(in_samples@).take(3 * k as int),
        decreases n - k,
    {
        let v: i64 = in_samples[k] as i64;
        let u: i64 = if v < 0 {
            v + 0x1_0000_0000
        } else {
            v
        };
        let w: i64 = u % 0x100_0000;
        proof {
            if v < 0 {
                lemma_mod_multiples_vanish(0x100, v as int, 0x100_0000);
            }
            assert(w == wrap_24(in_samples@[k as int] as int));
            lemma_word_bytes(w as int);
        }
        let b0: u8 = (w / 0x1_0000) as u8;
        let b1: u8 = ((w / 0x100) % 0x100) as u8;
        let b2: u8 = (w % 0x100) as u8;
        out.push(b0);
        out.push(b1);
        out.push(b2);
        proof {
            let p = packed(in_samples@);
            assert(p[3 * k as int] == b0);
            assert(p[3 * k + 1] == b1);
            assert(p[3 * k + 2] == b2);
        }
        k += 1;
    }
    out
}

/// Packing then unpacking gives back every sample that fits in 24 bits.
pub proof fn lemma_unpack_pack(samples: Seq<i32>)
    requires
        forall|i: int| 0 <= i < samples.len() ==> in_24bit_range(#[trigger] samples[i] as int),
    ensures
        unpacked(packed(samples)) == samples,
{
    let p = packed(samples);
    assert forall|i: int| 0 <= i < samples.len() implies #[trigger] unpacked(p)[i] == samples[i] by {
        let w = wrap_24(samples[i] as int);
        lemma_sample_round_trip(samples[i] as int);
        lemma_word_bytes(w);
        assert(p[3 * i] == word_byte(w, 0));
        assert(p[3 * i + 1] == word_byte(w, 1));
        assert(p[3 * i + 2] == word_byte(w, 2));
    }
    assert(unpacked(p) =~= samples);
}

/// Unpacking then packing gives back every whole 3-byte group; one or two
/// trailing bytes that do not fill a group are dropped.
pub proof fn lemma_pack_unpack(bytes: Seq<u8>)
    ensures
        packed(unpacked(bytes)) == bytes.take((bytes.len() / 3 * 3) as int),
{
    let u = unpacked(bytes);
    let whole = (bytes.len() / 3 * 3) as int;
    assert(packed(u).len() == whole);
    assert forall|j: int| 0 <= j < whole implies #[trigger] packed(u)[j] == bytes[j] by {
        let i = j / 3;
        assert(0 <= i < bytes.len() / 3);
        assert(3 * i + 2 < bytes.len());
        let w = be24(bytes[3 * i], bytes[3 * i + 1], bytes[3 * i + 2]);
        lemma_bytes_word(bytes[3 * i], bytes[3 * i + 1], bytes[3 * i + 2]);
        lemma_word_round_trip(w);
        assert(u[i] as int == sign_extend_24(w));
    }
    assert(packed(u) =~= bytes.take(whole));
}

/// The signed sample carried by a codec word (its low 24 bits in two's
/// complement). A full-scale float sample is this value divided by `2^23`.
pub fn codec_sample(y: u32) -> (r: i32)
    ensures
        r as int == codec_value(y),
        in_24bit_range(r as int),
{
    let low: u32 = y % 0x100_0000;
    if low >= 0x80_0000 {
        low as i32 - 0x100_0000
    } else {
        low as i32
    }
}

/// The codec word that carries a signed sample: the sample's two's-complement
/// bit pattern.
pub fn codec_word(s: i32) -> (r: u32)
    ensures
        r as int == (s as int) % 0x1_0000_0000,
{
    if s < 0 {
        proof {
            lemma_mod_multiples_vanish(1, s as int, 0x1_0000_0000);
        }
        (s as i64 + 0x1_0000_0000) as u32
    } else {
        s as u32
    }
}

/// A 24-bit sample written as a codec word reads back as itself.
pub proof fn lemma_codec_round_trip(s: i32)
    requires
        in_24bit_range(s as int),
    ensures
        codec_value(((s as int) % 0x1_0000_0000) as u32) == s,
{
    let w = (s as int) % 0x1_0000_0000;
    if s < 0 {
        lemma_mod_multiples_vanish(1, s as int, 0x1_0000_0000);
        lemma_mod_multiples_vanish(0x100, s as int, 0x100_0000);
    }
    assert(w % 0x100_0000 == wrap_24(s as int));
    lemma_sample_round_trip(s as int);
}

/// The frames decoded from interleaved codec words: frame `k` pairs words `2k`
/// and `2k + 1`.
pub open spec fn decoded_frames(input: Seq<u32>, count: int) -> Seq<(i32, i32)> {
    Seq::new(
        count as nat,
        |k: int| (codec_value(input[2 * k]) as i32, codec_value(input[2 * k + 1]) as i32),
    )
}

/// The interleaved codec words for a run of frames.
pub open spec fn encoded_frames(frames: Seq<(i32, i32)>, count: int) -> Seq<u32> {
    Seq::new(
        (2 * count) as nat,
        |j: int|
            if j % 2 == 0 {
                ((frames[j / 2].0 as int) % 0x1_0000_0000) as u32
            } else {
                ((frames[j / 2].1 as int) % 0x1_0000_0000) as u32
            },
    )
}

/// Splits interleaved stereo codec words into at most `frames` sample pairs.
/// Pairing stops at whichever runs out first; a lone trailing word may only
/// be left over when it is never reached.
pub fn decode_frames(input: &[u32], frames: usize) -> (out: Vec<(i32, i32)>)
    requires
        input@.len() % 2 == 0 || frames <= input@.len() / 2,
    ensures
        out@.len() == if frames < input@.len() / 2 { frames as int } else { (input@.len() / 2) as int },
        out@ == decoded_frames(input@, out@.len() as int),
{
    let half = input.len() / 2;
    let count = if frames < half {
        frames
    } else {
        half
    };
    let mut out: Vec<(i32, i32)> = Vec::with_capacity(count);
    let mut k: usize = 0;
    while k < count
        invariant
            count <= input@.len() / 2,
            2 * count <= input@.len() <= usize::MAX,
            k <= count,
            out@ =~= decoded_frames(input@, k as int),
        decreases count - k,
    {
        let left = codec_sample(input[2 * k]);
        let right = codec_sample(input[2 * k + 1]);
        out.push((left, right));
        k += 1;
    }
    out
}

/// Interleaves sample pairs into codec words for an output block of
/// `out_len` words; returns the words for the frames that fit, in order.
pub fn encode_frames(input: &[(i32, i32)], out_len: usize) -> (out: Vec<u32>)
    requires
        out_len % 2 == 0 || input@.len() <= out_len / 2,
    ensures
        out@.len() == 2 * (if input@.len() < out_len / 2 { input@.len() as int } else { (out_len
            / 2) as int }),
        out@ == encoded_frames(input@, (out@.len() / 2) as int),
{
    let half = out_len / 2;
    let count = if input.len() < half {
        input.len()
    } else {
        half
    };
    let mut out: Vec<u32> = Vec::with_capacity(2 * count);
    let mut k: usize = 0;
    while k < count
        invariant
            count <= input@.len(),
            count <= out_len / 2,
            k <= count,
            out@ =~= encoded_frames(input@, k as int),
        decreases count - k,
    {
        let (left, right) = input[k];
        out.push(codec_word(left));
        out.push(codec_word(right));
        k += 1;
    }
    out
}

/// Frames of 24-bit samples come back unchanged from being interleaved into
/// codec words and split again.
pub proof fn lemma_frames_round_trip(frames: Seq<(i32, i32)>)
    requires
        forall|k: int|
            0 <= k < frames.len() ==> in_24bit_range(#[trigger] frames[k].0 as int) && in_24bit_range(
                frames[k].1 as int,
            ),
    ensures
        decoded_frames(encoded_frames(frames, frames.len() as int), frames.len() as int) == frames,
{
    let w = encoded_frames(frames, frames.len() as int);
    assert forall|k: int| 0 <= k < frames.len() implies #[trigger] decoded_frames(
        w,
        frames.len() as int,
    )[k] == frames[k] by {
        lemma_codec_round_trip(frames[k].0);
        lemma_codec_round_trip(frames[k].1);
        assert(w[2 * k] == ((frames[k].0 as int) % 0x1_0000_0000) as u32);
        assert(w[2 * k + 1] == ((frames[k].1 as int) % 0x1_0000_0000) as u32);
    }
    assert(decoded_frames(w, frames.len() as int) =~= frames);
}

/// Frame `k` of the decoded frames pairs word `2k` (left) with word `2k + 1`
/// (right): each side is the signed 24-bit value that agrees with its word in
/// the low 24 bits.
pub proof fn lemma_decoded_frame_sides(input: Seq<u32>, count: int)
    requires
        0 <= count,
        2 * count <= input.len(),
    ensures
        decoded_frames(input, count).len() == count,
        forall|k: int|
            0 <= k < count ==> {
                let f = #[trigger] decoded_frames(input, count)[k];
                &&& in_24bit_range(f.0 as int)
                &&& in_24bit_range(f.1 as int)
                &&& (f.0 as int - input[2 * k] as int) % 0x100_0000 == 0
                &&& (f.1 as int - input[2 * k + 1] as int) % 0x100_0000 == 0
            },
{
    assert forall|k: int| 0 <= k < count implies {
        let f = #[trigger] decoded_frames(input, count)[k];
        &&& in_24bit_range(f.0 as int)
        &&& in_24bit_range(f.1 as int)
        &&& (f.0 as int - input[2 * k] as int) % 0x100_0000 == 0
        &&& (f.1 as int - input[2 * k + 1] as int) % 0x100_0000 == 0
    } by {
        lemma_codec_value_agrees(input[2 * k]);
        lemma_codec_value_agrees(input[2 * k + 1]);
    }
}

proof fn lemma_codec_value_agrees(y: u32)
    ensures
        in_24bit_range(codec_value(y)),
        (codec_value(y) - y as int) % 0x100_0000 == 0,
{
    let low = y as int % 0x100_0000;
    assert(y as int == (y as int / 0x100_0000) * 0x100_0000 + low) by (nonlinear_arith)
        requires
            low == y as int % 0x100_0000,
    ;
    let q = y as int / 0x100_0000;
    if low < 0x80_0000 {
        lemma_mod_multiples_vanish(-q, 0, 0x100_0000);
        assert(codec_value(y) - y as int == -q * 0x100_0000);
    } else {
        lemma_mod_multiples_vanish(-q - 1, 0, 0x100_0000);
        assert(codec_value(y) - y as int == (-q - 1) * 0x100_0000) by (nonlinear_arith)
            requires
                codec_value(y) == low - 0x100_0000,
                y as int == q * 0x100_0000 + low,
        ;
    }
}

/// Word `2k` of the encoded block carries frame `k`'s left sample and word
/// `2k + 1` its right sample, each as the sample's 32-bit two's-complement
/// pattern.
pub proof fn lemma_encoded_word_sides(frames: Seq<(i32, i32)>, count: int)
    requires
        0 <= count <= frames.len(),
    ensures
        encoded_frames(frames, count).len() == 2 * count,
        forall|k: int|
            0 <= k < count ==> {
                &&& (#[trigger] encoded_frames(frames, count)[2 * k] as int - frames[k].0 as int)
                    % 0x1_0000_0000 == 0
                &&& (encoded_frames(frames, count)[2 * k + 1] as int - frames[k].1 as int)
                    % 0x1_0000_0000 == 0
            },
{
    assert forall|k: int| 0 <= k < count implies {
        &&& (#[trigger] encoded_frames(frames, count)[2 * k] as int - frames[k].0 as int)
            % 0x1_0000_0000 == 0
        &&& (encoded_frames(frames, count)[2 * k + 1] as int - frames[k].1 as int) % 0x1_0000_0000
            == 0
    } by {
        let w = encoded_frames(frames, count);
        assert((2 * k) / 2 == k && (2 * k) % 2 == 0);
        assert((2 * k + 1) / 2 == k && (2 * k + 1) % 2 == 1);
        lemma_mod_difference(frames[k].0 as int);
        lemma_mod_difference(frames[k].1 as int);
    }
}

proof fn lemma_mod_difference(x: int)
    ensures
        (x % 0x1_0000_0000 - x) % 0x1_0000_0000 == 0,
{
    let q = x / 0x1_0000_0000;
    assert(x == q * 0x1_0000_0000 + x % 0x1_0000_0000) by (nonlinear_arith)
        requires
            q == x / 0x1_0000_0000,
    ;
    lemma_mod_multiples_vanish(-q, 0, 0x1_0000_0000);
    assert(x % 0x1_0000_0000 - x == -q * 0x1_0000_0000);
}

/// Each unpacked sample is the signed 24-bit value that agrees, in the low 24
/// bits, with its three bytes read most significant first.
pub proof fn lemma_unpacked_samples(bytes: Seq<u8>)
    ensures
        unpacked(bytes).len() == bytes.len() / 3,
        forall|i: int|
            0 <= i < bytes.len() / 3 ==> {
                &&& in_24bit_range(#[trigger] unpacked(bytes)[i] as int)
                &&& (unpacked(bytes)[i] as int - (bytes[3 * i] as int * 0x1_0000 + bytes[3 * i + 1] as int
                    * 0x100 + bytes[3 * i + 2] as int)) % 0x100_0000 == 0
            },
{
    assert forall|i: int| 0 <= i < bytes.len() / 3 implies {
        &&& in_24bit_range(#[trigger] unpacked(bytes)[i] as int)
        &&& (unpacked(bytes)[i] as int - (bytes[3 * i] as int * 0x1_0000 + bytes[3 * i + 1] as int
            * 0x100 + bytes[3 * i + 2] as int)) % 0x100_0000 == 0
    } by {
        assert(3 * i + 2 < bytes.len());
        lemma_bytes_word(bytes[3 * i], bytes[3 * i + 1], bytes[3 * i + 2]);
        let w = be24(bytes[3 * i], bytes[3 * i + 1], bytes[3 * i + 2]);
        if w >= 0x80_0000 {
            lemma_mod_multiples_vanish(-1, 0, 0x100_0000);
        }
    }
}

/// Sample `i` is packed into bytes `3i`, `3i + 1` and `3i + 2`, most
/// significant first, which read back as a 24-bit word agreeing with the
/// sample in its low 24 bits.
pub proof fn lemma_packed_bytes(samples: Seq<i32>)
    ensures
        packed(samples).len() == 3 * samples.len(),
        forall|i: int|
            0 <= i < samples.len() ==> (packed(samples)[3 * i] as int * 0x1_0000 + packed(samples)[3 * i
                + 1] as int * 0x100 + packed(samples)[3 * i + 2] as int - #[trigger] samples[i] as int)
                % 0x100_0000 == 0,
{
    assert forall|i: int| 0 <= i < samples.len() implies (packed(samples)[3 * i] as int * 0x1_0000
        + packed(samples)[3 * i + 1] as int * 0x100 + packed(samples)[3 * i + 2] as int
        - #[trigger] samples[i] as int) % 0x100_0000 == 0 by {
        let p = packed(samples);
        let x = samples[i] as int;
        let w = wrap_24(x);
        assert((3 * i) / 3 == i && (3 * i) % 3 == 0);
        assert((3 * i + 1) / 3 == i && (3 * i + 1) % 3 == 1);
        assert((3 * i + 2) / 3 == i && (3 * i + 2) % 3 == 2);
        assert(3 * i + 2 < samples.len() * 3);
        lemma_word_bytes(w);
        let q = x / 0x100_0000;
        assert(x == q * 0x100_0000 + w) by (nonlinear_arith)
            requires
                q == x / 0x100_0000,
                w == x % 0x100_0000,
        ;
        lemma_mod_multiples_vanish(-q, 0, 0x100_0000);
        assert(w - x == -q * 0x100_0000);
    }
}

} // verus!
