//! Fresh random values: message identifiers, salts, ports. Each comes from
//! the thread-local generator of `rand`; nothing is claimed of a draw but
//! its range.

use vstd::prelude::*;

verus! {

/// A uniformly drawn `u64` (`rand::random::<u64>()`). Every value can come
/// out, so no clause is stated.
#[verifier::external_body]
pub(crate) fn random_u64() -> u64 {
    rand::random::<u64>()
}

/// A uniformly drawn value of `lo..=hi` (`rand::random_range`). The
/// source asserts that the range is not empty, so `lo <= hi` is required.
#[verifier::external_body]
pub(crate) fn random_in(lo: u32, hi: u32) -> (r: u32)
    requires
        lo <= hi,
    ensures
        lo <= r <= hi,
{
    rand::random_range(lo..=hi)
}

} // verus!
