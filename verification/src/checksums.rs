use vstd::prelude::*;

verus! {

/// The CRC-16/IBM-SDLC (X.25) checksum of `data`, as `crc::Crc::<u16>` with
/// `crc::CRC_16_IBM_SDLC` computes it.
pub uninterp spec fn crc16_ibm_sdlc(data: Seq<u8>) -> u16;

/// The CRC-8/SMBUS checksum of `data`, as `crc::Crc::<u8>` with
/// `crc::CRC_8_SMBUS` computes it.
pub uninterp spec fn crc8_smbus(data: Seq<u8>) -> u8;

/// Whether `crc8_rs::has_valid_crc8` accepts `data` under `polynomial`: the
/// buffer, read as one polynomial over GF(2), is a multiple of the generator.
pub uninterp spec fn crc8_valid(data: Seq<u8>, polynomial: u8) -> bool;

/// What `crc8_rs::insert_crc8` returns for `data` under `polynomial`.
pub uninterp spec fn crc8_inserted(data: Seq<u8>, polynomial: u8) -> Seq<u8>;

/// Calls `crc::Crc::<u16>::new(&crc::CRC_16_IBM_SDLC).checksum(data)`.
/// Trusted: the result is the named CRC-16/IBM-SDLC value of the bytes.
#[verifier::external_body]
pub(crate) fn checksum_x25(data: &[u8]) -> (r: u16)
    ensures
        r == crc16_ibm_sdlc(data@),
{
    crc::Crc::<u16>::new(&crc::CRC_16_IBM_SDLC).checksum(data)
}

/// Calls `crc::Crc::<u8>::new(&crc::CRC_8_SMBUS).checksum(data)`.
/// Trusted: the result is the named CRC-8/SMBUS value of the bytes.
#[verifier::external_body]
pub(crate) fn checksum_smbus(data: &[u8]) -> (r: u8)
    ensures
        r == crc8_smbus(data@),
{
    crc::Crc::<u8>::new(&crc::CRC_8_SMBUS).checksum(data)
}

/// Calls `crc8_rs::has_valid_crc8` on a 32-byte buffer. Trusted: the result
/// is the named validity of the buffer. The crate panics on an empty buffer
/// and loops forever on the zero polynomial, hence the `requires`.
#[verifier::external_body]
pub(crate) fn has_valid_crc8_32(data: [u8; 32], polynomial: u8) -> (r: bool)
    requires
        polynomial != 0,
    ensures
        r == crc8_valid(data@, polynomial),
{
    crc8_rs::has_valid_crc8(data, polynomial)
}

/// Calls `crc8_rs::insert_crc8` on a 32-byte buffer. Trusted: the result is
/// the named value; it keeps every byte but the last, and (as the crate's
/// documentation shows and its polynomial division gives) the crate's own
/// check accepts it.
#[verifier::external_body]
pub(crate) fn insert_crc8_32(data: [u8; 32], polynomial: u8) -> (r: [u8; 32])
    requires
        polynomial != 0,
    ensures
        r@ == crc8_inserted(data@, polynomial),
        r@.subrange(0, 31) == data@.subrange(0, 31),
        crc8_valid(r@, polynomial),
{
    crc8_rs::insert_crc8(data, polynomial)
}

} // verus!
