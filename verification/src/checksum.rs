//! The checksum that guards the contents of a chunk.

use vstd::prelude::*;

verus! {

/// The CRC-32/ISO-HDLC check value of `bytes`: the 32-bit cyclic redundancy
/// check of ISO 3309, as used by zlib and PNG (reflected, polynomial
/// `0x04c11db7`, initial value and final xor `0xffffffff`).
pub uninterp spec fn crc32_iso_hdlc(bytes: Seq<u8>) -> u32;

/// Computes the check value of `bytes` with `crc::Crc::<u32>::checksum`, on
/// a `Crc` made by `crc::Crc::<u32>::new` for `crc::CRC_32_ISO_HDLC`.
///
/// The contract is not proved. It claims that the result depends on the
/// bytes alone and gives that dependence its name; the only thing known of
/// the name is that equal byte strings have equal check values.
#[verifier::external_body]
pub(crate) fn checksum(bytes: &[u8]) -> (sum: u32)
    ensures
        sum == crc32_iso_hdlc(bytes@),
{
    crc::Crc::<u32>::new(&crc::CRC_32_ISO_HDLC).checksum(bytes)
}

} // verus!
