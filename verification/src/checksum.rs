//! Content checksums for change detection.
//!
//! The engine decides whether a file must be re-copied by comparing a
//! 32-bit cyclic redundancy check of the source and target contents. The
//! checksum itself is computed by an outside crate; its value is named by
//! the uninterpreted function `crc32_of`, and every contract downstream
//! speaks of that name.

use vstd::prelude::*;

verus! {

/// The 32-bit cyclic redundancy check of a byte string, as the outside
/// checksum routine computes it. The value depends on the bytes alone.
pub uninterp spec fn crc32_of(b: Seq<u8>) -> u32;

/// Relies on crc32fast::hash: the checksum is a pure function of the
/// buffer's bytes.
#[verifier::external_body]
fn crc32(data: &Vec<u8>) -> (r: u32)
    ensures
        r == crc32_of(data@),
{
    crc32fast::hash(data.as_slice())
}

/// Whether two byte strings have the same content checksum. Equal
/// contents always match; differing contents match only on a checksum
/// collision, the documented trade-off of checksum-based change
/// detection.
pub fn checksums_match(a: &Vec<u8>, b: &Vec<u8>) -> (r: bool)
    ensures
        r == (crc32_of(a@) == crc32_of(b@)),
{
    crc32(a) == crc32(b)
}

} // verus!
