//! The CRC-32 that guards every chunk, computed by the `crc` crate.

use vstd::prelude::*;

verus! {

/// The CRC-32/ISO-HDLC checksum of `bytes`: the 32-bit cyclic redundancy
/// check of the PNG, zlib and Ethernet formats (polynomial `0x04c11db7`,
/// reflected, initial value and final xor `0xffffffff`).
///
/// The value is computed by the `crc` crate and is not defined here; the
/// specifications of this crate only rely on it being a function of the
/// bytes.
pub uninterp spec fn crc32_iso_hdlc(bytes: Seq<u8>) -> u32;

/// Computes the checksum of `bytes` with `crc::Crc::<u32>::checksum`, on an
/// instance that `crc::Crc::<u32>::new` builds for `crc::CRC_32_ISO_HDLC`.
///
/// Trusted: the result is taken to be `crc32_iso_hdlc` of the bytes. The
/// call reads nothing but the slice and the algorithm's constant table, and
/// does not panic on any input.
#[verifier::external_body]
pub(crate) fn checksum(bytes: &[u8]) -> (sum: u32)
    ensures
        sum == crc32_iso_hdlc(bytes@),
{
    ::crc::Crc::<u32>::new(&::crc::CRC_32_ISO_HDLC).checksum(bytes)
}

} // verus!
