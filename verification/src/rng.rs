//! The engine's one source of randomness: a bounded draw from the
//! process-wide generator, used only to reseed centroids whose group is
//! empty.

use vstd::prelude::*;

verus! {

/// Relies on `rand::random_range` over `lo..=hi`: it returns a value of the
/// inclusive range, drawn from the thread-local generator, and panics only
/// when the range is empty. Nothing more is promised of the draw.
#[verifier::external_body]
pub(crate) fn rand_in_range(lo: i64, hi: i64) -> (r: i64)
    requires
        lo <= hi,
    ensures
        lo <= r <= hi,
{
    rand::random_range(lo..=hi)
}

} // verus!
