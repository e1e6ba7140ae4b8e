use vstd::prelude::*;

use crate::blocks::BlockId;

verus! {

/// What a column holds because of a river.
#[derive(Clone, Copy, Debug, PartialEq, Eq, Structural)]
pub enum RiverColumn {
    Empty,
    Channel { level: i32, bottom: i32 },
}

/// Places meandering river channels; its decisions read the world seed only.
#[derive(Clone, Copy, Debug, PartialEq, Eq, Structural)]
pub struct RiverSampler {
    pub seed: u64,
}

impl RiverSampler {
    pub fn new(seed: u64) -> (r: RiverSampler)
        ensures
            r.seed == seed,
    {
        RiverSampler { seed }
    }
}

impl RiverColumn {
    /// A channel one block below the surface, `depth` blocks deep.
    pub fn channel(surface: i32, depth: i32) -> (r: RiverColumn)
        requires
            surface > i32::MIN + 1,
            0 <= depth <= 8,
            surface - 1 - depth >= i32::MIN,
        ensures
            r == (RiverColumn::Channel {
                level: (surface - 1) as i32,
                bottom: (surface - 1 - depth) as i32,
            }),
    {
        let level = surface - 1;
        RiverColumn::Channel { level, bottom: level - depth }
    }

    pub open spec fn spec_block(self, y: i32, terrain: BlockId) -> BlockId {
        match self {
            RiverColumn::Empty => terrain,
            RiverColumn::Channel { level, bottom } => {
                if y > level {
                    BlockId::AIR
                } else if y > bottom && y <= level {
                    BlockId::WATER
                } else if y == bottom {
                    BlockId::DIRT
                } else {
                    terrain
                }
            },
        }
    }

    /// A channel clears everything above its water level, fills water down
    /// to its floor and lines the floor with dirt.
    pub fn block(self, y: i32, terrain: BlockId) -> (r: BlockId)
        ensures
            r == self.spec_block(y, terrain),
    {
        match self {
            RiverColumn::Empty => terrain,
            RiverColumn::Channel { level, bottom } => {
                if y > level {
                    BlockId::AIR
                } else if y > bottom && y <= level {
                    BlockId::WATER
                } else if y == bottom {
                    BlockId::DIRT
                } else {
                    terrain
                }
            },
        }
    }

    pub open spec fn spec_bottom(self) -> Option<i32> {
        match self {
            RiverColumn::Channel { bottom, .. } => Some(bottom),
            RiverColumn::Empty => None,
        }
    }

    /// The channel's floor block.
    pub fn bottom(self) -> (r: Option<i32>)
        ensures
            r == self.spec_bottom(),
    {
        match self {
            RiverColumn::Channel { bottom, .. } => Some(bottom),
            RiverColumn::Empty => None,
        }
    }

    pub open spec fn spec_direct_sky_floor(self, surface: i32) -> int {
        match self {
            RiverColumn::Channel { bottom, .. } => bottom + 1,
            RiverColumn::Empty => surface as int,
        }
    }

    /// The lowest block that sees the sky directly.
    pub fn direct_sky_floor(self, surface: i32) -> (r: i32)
        requires
            self matches RiverColumn::Channel { bottom, .. } ==> bottom < i32::MAX,
        ensures
            r == self.spec_direct_sky_floor(surface),
    {
        match self {
            RiverColumn::Channel { bottom, .. } => bottom + 1,
            RiverColumn::Empty => surface,
        }
    }
}

} // verus!
