use vstd::prelude::*;

use crate::blocks::BlockId;
use crate::hashing::{hash, hash_spec};

verus! {

pub const DEPTH_SEED: u64 = 0xC0AC_29B7_C97C_50DD;
pub const OCEAN_FLOOR_SEED: u64 = 0x4528_21E6_38D0_1377;
pub const LAKE_FLOOR_SEED: u64 = 0xBE54_66CF_34E9_0C6C;

/// A layer of loose material laid over a surface.
#[derive(Clone, Copy, Debug, PartialEq, Eq, Structural)]
pub struct Deposit {
    pub block: BlockId,
    pub depth: i32,
}

/// Sediments of one column: an optional layer over the terrain surface
/// (ocean floor or beach) and the layer that lines any lake floor.
#[derive(Clone, Copy, Debug, PartialEq, Eq, Structural)]
pub struct SedimentColumn {
    pub terrain: Option<Deposit>,
    pub lake_floor: Deposit,
}

/// Lays sand, gravel, clay, dirt and stone over submerged floors and beaches.
#[derive(Clone, Copy, Debug, PartialEq, Eq, Structural)]
pub struct SedimentSampler {
    pub seed: u64,
}

/// Deepest layer of each submerged floor material.
pub open spec fn maximum_depth_spec(block: BlockId) -> u64 {
    match block {
        BlockId::SAND | BlockId::DIRT => 3,
        BlockId::CLAY | BlockId::GRAVEL => 2,
        _ => 1,
    }
}

impl SedimentSampler {
    pub fn new(seed: u64) -> (r: SedimentSampler)
        ensures
            r.seed == seed,
    {
        SedimentSampler { seed }
    }

    /// A submerged floor layer of the given material: one block deep up to the
    /// material's maximum depth, picked by a seeded hash of the column.
    pub fn deposit(self, x: i32, z: i32, salt: u64, block: BlockId) -> (r: Deposit)
        ensures
            r.block == block,
            r.depth == 1 + hash_spec(self.seed ^ salt ^ DEPTH_SEED, x, z) % maximum_depth_spec(
                block,
            ),
            1 <= r.depth <= 3,
    {
        let maximum_depth: u64 = match block {
            BlockId::SAND | BlockId::DIRT => 3,
            BlockId::CLAY | BlockId::GRAVEL => 2,
            _ => 1,
        };
        let roll = hash(self.seed ^ salt ^ DEPTH_SEED, x, z) % maximum_depth;
        Deposit { block, depth: 1 + roll as i32 }
    }

    /// A beach layer: clay in clay patches and sand elsewhere, two to four
    /// blocks deep.
    pub fn beach(self, x: i32, z: i32, clay_patch: bool) -> (r: Deposit)
        ensures
            r.block == (if clay_patch {
                BlockId::CLAY
            } else {
                BlockId::SAND
            }),
            r.depth == 2 + hash_spec(self.seed ^ DEPTH_SEED, x, z) % 3,
            2 <= r.depth <= 4,
    {
        let block = if clay_patch {
            BlockId::CLAY
        } else {
            BlockId::SAND
        };
        let roll = hash(self.seed ^ DEPTH_SEED, x, z) % 3;
        Deposit { block, depth: 2 + roll as i32 }
    }
}

impl Deposit {
    pub open spec fn spec_apply(self, y: i32, top: i32, underlying: BlockId) -> BlockId {
        let inside = y <= top && y > top - self.depth;
        if inside && underlying != BlockId::AIR && !underlying.spec_is_liquid() {
            self.block
        } else {
            underlying
        }
    }

    /// The layer replaces the solid blocks of the `depth` topmost blocks below
    /// and including `top`; air and liquids are kept.
    pub fn apply(self, y: i32, top: i32, underlying: BlockId) -> (r: BlockId)
        ensures
            r == self.spec_apply(y, top, underlying),
    {
        let inside = y <= top && (y as i64) > (top as i64) - (self.depth as i64);
        if inside && underlying != BlockId::AIR && !underlying.is_liquid() {
            self.block
        } else {
            underlying
        }
    }
}

impl SedimentColumn {
    pub open spec fn spec_terrain_block(self, y: i32, surface: i32, block: BlockId) -> BlockId {
        match self.terrain {
            Some(deposit) => deposit.spec_apply(y, surface, block),
            None => block,
        }
    }

    /// The column's surface layer applied under the terrain surface.
    pub fn terrain_block(self, y: i32, surface: i32, block: BlockId) -> (r: BlockId)
        ensures
            r == self.spec_terrain_block(y, surface, block),
    {
        match self.terrain {
            Some(deposit) => deposit.apply(y, surface, block),
            None => block,
        }
    }

    pub open spec fn spec_lake_block(self, y: i32, bottom: i32, block: BlockId) -> BlockId {
        self.lake_floor.spec_apply(y, bottom, block)
    }

    /// The lake floor layer applied under a basin's floor block.
    pub fn lake_block(self, y: i32, bottom: i32, block: BlockId) -> (r: BlockId)
        ensures
            r == self.spec_lake_block(y, bottom, block),
    {
        self.lake_floor.apply(y, bottom, block)
    }
}

} // verus!
