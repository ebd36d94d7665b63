//! The 32-bit cyclic redundancy check that guards each chunk on the wire.
use vstd::prelude::*;

verus! {

/// The CRC-32 (IEEE polynomial) of a byte sequence. The algorithm is left
/// unstated here: every claim about checksums goes through this name, and the
/// executable value comes from the `crc` crate.
pub uninterp spec fn crc32_of(bytes: Seq<u8>) -> u32;

/// Relies on `crc::Crc::<u32>::checksum` with the `CRC_32_ISO_HDLC` algorithm
/// (the IEEE polynomial: poly 0x04c11db7, init 0xffffffff, reflected,
/// xorout 0xffffffff): the result depends on the input bytes alone.
#[verifier::external_body]
pub(crate) fn crc32_ieee(bytes: &Vec<u8>) -> (r: u32)
    ensures
        r == crc32_of(bytes@),
{
    crc::Crc::<u32>::new(&crc::CRC_32_ISO_HDLC).checksum(bytes.as_slice())
}

} // verus!
