use vstd::prelude::*;

verus! {

/// Failures of the codec driver.
#[derive(Debug)]
pub enum Error {
    I2cConfig,
    I2cTransfer,
    I2sConfig,
    BadArgument,
}

/// The audio codec driver; it holds no state of its own.
pub struct AudioDriver {}

impl AudioDriver {
    /// Sets up the I2S link; nothing needs configuring yet, so it succeeds.
    pub fn init_i2s() -> (r: Result<(), Error>)
        ensures
            r is Ok,
    {
        Ok(())
    }
}

/// Bit `k` of `x`.
pub open spec fn bit_of(x: u8, k: u8) -> bool {
    (x >> k) & 1u8 == 1u8
}

/// A register value with bit `bit` set (`value`) or cleared (`!value`) and
/// every other bit unchanged; this is the read-modify-write step of a single
/// register-bit update over I2C.
pub fn set_register_bit(current: u8, bit: u8, value: bool) -> (r: u8)
    requires
        bit < 8,
    ensures
        bit_of(r, bit) == value,
        forall|k: u8| k < 8 && k != bit ==> bit_of(r, k) == bit_of(current, k),
{
    if value {
        let r = current | (1u8 << bit);
        assert(forall|k: u8| k < 8 && k != bit ==> ((r >> k) & 1u8 == 1u8) == ((current >> k) & 1u8 == 1u8))
            by (bit_vector)
            requires
                bit < 8,
                r == current | (1u8 << bit),
        ;
        assert((r >> bit) & 1u8 == 1u8) by (bit_vector)
            requires
                bit < 8,
                r == current | (1u8 << bit),
        ;
        r
    } else {
        let r = current & !(1u8 << bit);
        assert(forall|k: u8| k < 8 && k != bit ==> ((r >> k) & 1u8 == 1u8) == ((current >> k) & 1u8 == 1u8))
            by (bit_vector)
            requires
                bit < 8,
                r == current & !(1u8 << bit),
        ;
        assert((r >> bit) & 1u8 == 0u8) by (bit_vector)
            requires
                bit < 8,
                r == current & !(1u8 << bit),
        ;
        r
    }
}

/// Two bytes that agree in all eight bits are equal, so the contract of
/// `set_register_bit` fixes its result; in particular repeating an update
/// changes nothing.
pub proof fn lemma_bits_determine_byte(x: u8, y: u8)
    requires
        forall|k: u8| k < 8 ==> bit_of(x, k) == bit_of(y, k),
    ensures
        x == y,
{
    assert(bit_of(x, 0) == bit_of(y, 0));
    assert(bit_of(x, 1) == bit_of(y, 1));
    assert(bit_of(x, 2) == bit_of(y, 2));
    assert(bit_of(x, 3) == bit_of(y, 3));
    assert(bit_of(x, 4) == bit_of(y, 4));
    assert(bit_of(x, 5) == bit_of(y, 5));
    assert(bit_of(x, 6) == bit_of(y, 6));
    assert(bit_of(x, 7) == bit_of(y, 7));
    assert(x == y) by (bit_vector)
        requires
            ((x >> 0u8) & 1u8 == 1u8) == ((y >> 0u8) & 1u8 == 1u8),
            ((x >> 1u8) & 1u8 == 1u8) == ((y >> 1u8) & 1u8 == 1u8),
            ((x >> 2u8) & 1u8 == 1u8) == ((y >> 2u8) & 1u8 == 1u8),
            ((x >> 3u8) & 1u8 == 1u8) == ((y >> 3u8) & 1u8 == 1u8),
            ((x >> 4u8) & 1u8 == 1u8) == ((y >> 4u8) & 1u8 == 1u8),
            ((x >> 5u8) & 1u8 == 1u8) == ((y >> 5u8) & 1u8 == 1u8),
            ((x >> 6u8) & 1u8 == 1u8) == ((y >> 6u8) & 1u8 == 1u8),
            ((x >> 7u8) & 1u8 == 1u8) == ((y >> 7u8) & 1u8 == 1u8),
    ;
}

/// The address word that starts an I2C write to the 7-bit device `addr`:
/// the address shifted up one place with the read/write bit clear.
pub fn i2c_write_address(addr: u32) -> (r: u32)
    ensures
        r == (addr % 128) * 2,
{
    let r = (addr << 1u32) & 0xFEu32;
    assert(r == (addr % 128) * 2) by (bit_vector)
        requires
            r == (addr << 1u32) & 0xFEu32,
    ;
    r
}

} // verus!
