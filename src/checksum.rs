use vstd::prelude::*;

verus! {

#[verifier::external_type_specification]
#[verifier::external_body]
pub struct ExCrc(flate2::Crc);

/// The bytes that a running CRC-32 computation has been fed, in order.
pub uninterp spec fn crc_fed(c: flate2::Crc) -> Seq<u8>;

/// The CRC-32 checksum of a byte sequence.
pub uninterp spec fn crc32_of(data: Seq<u8>) -> u32;

/// Relies on flate2's `Crc::new`: a fresh computation has been fed nothing.
pub assume_specification[ flate2::Crc::new ]() -> (r: flate2::Crc)
    ensures
        crc_fed(r) == Seq::<u8>::empty(),
;

/// Relies on flate2's `Crc::update`: the bytes are fed after those before.
pub assume_specification[ flate2::Crc::update ](c: &mut flate2::Crc, data: &[u8])
    ensures
        crc_fed(*final(c)) == crc_fed(*old(c)) + data@,
;

/// Relies on flate2's `Crc::sum`: the checksum of everything fed so far.
pub assume_specification[ flate2::Crc::sum ](c: &flate2::Crc) -> (r: u32)
    ensures
        r == crc32_of(crc_fed(*c)),
;

/// Relies on flate2's `Crc::amount`: how many bytes were fed, modulo 2^32.
pub assume_specification[ flate2::Crc::amount ](c: &flate2::Crc) -> (r: u32)
    ensures
        r as int == crc_fed(*c).len() % 0x1_0000_0000,
;

} // verus!
