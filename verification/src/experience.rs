//! Experience reward tiers. A reward is drawn as a uniform integer in
//! `[1, 10000]`: a draw divisible by 10000 is the rare tier, one divisible by
//! 100 (but not 10000) the mid tier, anything else the base tier, giving tier
//! probabilities of 0.01%, 0.99% and 99%.

use vstd::prelude::*;
use crate::rng::draw_in;

verus! {

/// A reward tier: `X` is the base tier (value 1), `Y` the mid tier
/// (value 100), `Z` the rare tier (value 10000).
#[derive(Clone, Copy, PartialEq, Eq, Structural, Debug)]
pub enum Experience {
    X,
    Y,
    Z,
}

/// The tier a given draw falls in.
pub open spec fn spec_classify(draw: int) -> Experience {
    if draw % 10000 == 0 {
        Experience::Z
    } else if draw % 100 == 0 {
        Experience::Y
    } else {
        Experience::X
    }
}

/// The scalar reward a tier is worth.
pub open spec fn spec_value(xp: Experience) -> int {
    match xp {
        Experience::X => 1,
        Experience::Y => 100,
        Experience::Z => 10000,
    }
}

impl Experience {
    /// Classify one uniform draw from `[1, 10000]` into its tier.
    pub fn classify(draw: i64) -> (xp: Experience)
        requires
            1 <= draw <= 10000,
        ensures
            xp == spec_classify(draw as int),
    {
        if draw % 10000 == 0 {
            Experience::Z
        } else if draw % 100 == 0 {
            Experience::Y
        } else {
            Experience::X
        }
    }

    /// Draw a fresh tier at random.
    pub fn generate() -> (xp: Experience) {
        let draw = draw_in(1, 10001);
        Experience::classify(draw)
    }

    /// The scalar reward this tier delivers on collection.
    pub fn value(&self) -> (v: u64)
        ensures
            v == spec_value(*self),
    {
        match self {
            Experience::X => 1,
            Experience::Y => 100,
            Experience::Z => 10000,
        }
    }
}

} // verus!
