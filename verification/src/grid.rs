//! The playable world rectangle. The grid's extent decides which enemies are
//! targetable and where projectiles expire.

use vstd::prelude::*;
use crate::vec2::{Vec2i, COORD_LIMIT};

verus! {

/// Side length of one small grid box, world units.
pub const GRID_SMALL_BOX_LENGTH: i64 = 32;

/// Number of small boxes along the width.
pub const NUM_SMALL_BOX_WIDTH: i64 = 850;

/// Number of small boxes along the height.
pub const NUM_SMALL_BOX_HEIGHT: i64 = 1100;

/// Width of the playable world, world units.
pub const GRID_WIDTH: i64 = GRID_SMALL_BOX_LENGTH * NUM_SMALL_BOX_WIDTH;

/// Height of the playable world, world units.
pub const GRID_HEIGHT: i64 = GRID_SMALL_BOX_LENGTH * NUM_SMALL_BOX_HEIGHT;

/// The playable rectangle `[0, width] × [0, height]`.
#[derive(Clone, Copy, PartialEq, Eq, Structural, Debug)]
pub struct Grid {
    pub width: i64,
    pub height: i64,
}

impl Grid {
    pub open spec fn wf(self) -> bool {
        &&& 1 <= self.width <= COORD_LIMIT
        &&& 1 <= self.height <= COORD_LIMIT
    }

    /// A point lies inside the playable rectangle; both boundaries are
    /// inclusive, so (0, 0) and (width, height) count as inside.
    pub open spec fn spec_contains(self, p: Vec2i) -> bool {
        0 <= p.x <= self.width && 0 <= p.y <= self.height
    }

    /// Whether `p` lies in the playable rectangle, boundary included.
    pub fn contains(&self, p: Vec2i) -> (r: bool)
        ensures
            r == self.spec_contains(p),
    {
        p.x >= 0 && p.x <= self.width && p.y >= 0 && p.y <= self.height
    }

    /// The standard playable grid: 850 × 1100 boxes of 32 units.
    pub fn standard() -> (g: Grid)
        ensures
            g.wf(),
            g.width == GRID_WIDTH,
            g.height == GRID_HEIGHT,
    {
        Grid { width: GRID_WIDTH, height: GRID_HEIGHT }
    }
}

} // verus!
