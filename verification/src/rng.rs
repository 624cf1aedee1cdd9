//! The one source of randomness: the jitter that keeps agents from
//! freezing on cells the flow field could not reach.

use vstd::prelude::*;
use rand::Rng;

verus! {

/// Relies on `rand::Rng::gen_range` over a half-open integer range: it
/// panics only when the range is empty, and returns a value inside the
/// range.  Nothing more is promised of a random draw; callers state what
/// holds of every outcome.
#[verifier::external_body]
pub(crate) fn jitter(lo: i64, hi: i64) -> (r: i64)
    requires
        lo < hi,
    ensures
        lo <= r < hi,
{
    rand::thread_rng().gen_range(lo..hi)
}

} // verus!
