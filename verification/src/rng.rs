//! The core's single source of randomness: a uniform draw from a half-open
//! integer range. Jitter, reward tiers and target choice all go through it,
//! and every function that consumes a draw is verified for every value the
//! range allows.

use vstd::prelude::*;
use rand::Rng;

verus! {

/// Relies on `rand::Rng::gen_range` (through `rand::thread_rng`): the sample
/// lies in the half-open range `[lo, hi)`. `gen_range` panics on an empty
/// range, which the precondition rules out. Nothing more is assumed of the
/// sample; callers are verified for every value in the range.
#[verifier::external_body]
pub fn draw_in(lo: i64, hi: i64) -> (r: i64)
    requires
        lo < hi,
    ensures
        lo <= r < hi,
{
    rand::thread_rng().gen_range(lo..hi)
}

} // verus!
