//! The CRC-32 checksum that guards a record's tweak payload.

use vstd::prelude::*;

verus! {

/// The CRC-32 (IEEE) checksum of `bytes`.
pub uninterp spec fn crc32_of(bytes: Seq<u8>) -> u32;

/// Relies on `crc32fast::hash`: the CRC-32 of the bytes, a function of the bytes alone.
#[verifier::external_body]
pub(crate) fn crc32(bytes: &[u8]) -> (r: u32)
    ensures
        r == crc32_of(bytes@),
{
    crc32fast::hash(bytes)
}

} // verus!
