use vstd::prelude::*;

use crate::blocks::BlockId;
use crate::geometry::IVec2;
use crate::hashing::{hash, hash_spec};
use crate::lakes::{seq_max, seq_min, height_extent};
use crate::terrain::SEA_LEVEL;

verus! {

pub const BIG_LAKE_SPACING: i32 = 384;
pub const BIG_LAKE_CHANCE_PERCENT: u64 = 30;
pub const BIG_LAKE_MIN_RADIUS: i32 = 24;
pub const BIG_LAKE_MAX_RADIUS: i32 = 48;
pub const BIG_LAKE_SPAWN_CLEAR_RADIUS: i32 = 64;
pub const BIG_LAKE_MAX_TERRAIN_VARIATION: i32 = 3;
pub const BIG_LAKE_SEED: u64 = 0x0801_F2E2_858E_FC16;

/// What a column holds because of a big lake.
#[derive(Clone, Copy, Debug, PartialEq, Eq, Structural)]
pub enum BigLakeColumn {
    Empty,
    Island,
    Basin { level: i32, bottom: i32 },
}

/// Places wide, shallow lakes with islands on a coarse jittered grid.
#[derive(Clone, Copy, Debug, PartialEq, Eq, Structural)]
pub struct BigLakeSampler {
    pub seed: u64,
}

/// A big lake that passed every placement test.
#[derive(Clone, Copy, Debug, PartialEq, Eq, Structural)]
pub struct BigLake {
    pub center: IVec2,
    pub radii: IVec2,
    pub level: i32,
    pub identity: u64,
}

/// Where a grid cell would put its big lake, before the terrain is consulted.
#[derive(Clone, Copy, Debug, PartialEq, Eq, Structural)]
pub struct BigLakeSite {
    pub center: IVec2,
    pub radii: IVec2,
    pub identity: u64,
}

/// The big lake site a grid cell rolls, if its roll admits one.
pub open spec fn big_site_spec(seed: u64, cell_x: i32, cell_z: i32) -> Option<BigLakeSite> {
    let identity = hash_spec(seed ^ BIG_LAKE_SEED, cell_x, cell_z);
    let margin = BIG_LAKE_MAX_RADIUS + 5;
    let span = BIG_LAKE_SPACING - margin * 2;
    let radius_span = BIG_LAKE_MAX_RADIUS - BIG_LAKE_MIN_RADIUS + 1;
    if identity % 100 >= BIG_LAKE_CHANCE_PERCENT {
        None
    } else {
        Some(
            BigLakeSite {
                center: IVec2 {
                    x: (cell_x * BIG_LAKE_SPACING + margin + ((identity >> 8u64) % (span as u64)))
                        as i32,
                    y: (cell_z * BIG_LAKE_SPACING + margin + ((identity >> 24u64) % (
                    span as u64))) as i32,
                },
                radii: IVec2 {
                    x: (BIG_LAKE_MIN_RADIUS + ((identity >> 40u64) % (radius_span as u64))) as i32,
                    y: (BIG_LAKE_MIN_RADIUS + ((identity >> 48u64) % (radius_span as u64))) as i32,
                },
                identity,
            },
        )
    }
}

/// A big lake site is kept clear of the spawn area.
pub open spec fn big_near_spawn(center: IVec2) -> bool {
    -BIG_LAKE_SPAWN_CLEAR_RADIUS <= center.x <= BIG_LAKE_SPAWN_CLEAR_RADIUS
        && -BIG_LAKE_SPAWN_CLEAR_RADIUS <= center.y <= BIG_LAKE_SPAWN_CLEAR_RADIUS
}

/// Grid cells whose big lake sites stay inside the coordinate range.
pub open spec fn big_cell_in_range(cell: i32) -> bool {
    -0x0040_0000 <= cell <= 0x0040_0000
}

impl BigLakeSampler {
    pub fn new(seed: u64) -> (r: BigLakeSampler)
        ensures
            r.seed == seed,
    {
        BigLakeSampler { seed }
    }

    /// The site a grid cell rolls, unless the roll fails or the site lies in
    /// the spawn area.
    pub fn site(self, cell_x: i32, cell_z: i32) -> (r: Option<BigLakeSite>)
        requires
            big_cell_in_range(cell_x),
            big_cell_in_range(cell_z),
        ensures
            r == (match big_site_spec(self.seed, cell_x, cell_z) {
                Some(site) => if big_near_spawn(site.center) {
                    None
                } else {
                    Some(site)
                },
                None => None,
            }),
    {
        let identity = hash(self.seed ^ BIG_LAKE_SEED, cell_x, cell_z);
        if identity % 100 >= BIG_LAKE_CHANCE_PERCENT {
            return None;
        }
        let margin = BIG_LAKE_MAX_RADIUS + 5;
        let span = BIG_LAKE_SPACING - margin * 2;
        assert(-0x0040_0000 * 384 <= cell_x * 384 <= 0x0040_0000 * 384) by (nonlinear_arith)
            requires
                -0x0040_0000 <= cell_x <= 0x0040_0000,
        ;
        assert(-0x0040_0000 * 384 <= cell_z * 384 <= 0x0040_0000 * 384) by (nonlinear_arith)
            requires
                -0x0040_0000 <= cell_z <= 0x0040_0000,
        ;
        let center = IVec2 {
            x: cell_x * BIG_LAKE_SPACING + margin + ((identity >> 8) % span as u64) as i32,
            y: cell_z * BIG_LAKE_SPACING + margin + ((identity >> 24) % span as u64) as i32,
        };
        if -BIG_LAKE_SPAWN_CLEAR_RADIUS <= center.x && center.x <= BIG_LAKE_SPAWN_CLEAR_RADIUS
            && -BIG_LAKE_SPAWN_CLEAR_RADIUS <= center.y && center.y
            <= BIG_LAKE_SPAWN_CLEAR_RADIUS {
            return None;
        }
        let radius_span = (BIG_LAKE_MAX_RADIUS - BIG_LAKE_MIN_RADIUS + 1) as u64;
        let radii = IVec2 {
            x: BIG_LAKE_MIN_RADIUS + ((identity >> 40) % radius_span) as i32,
            y: BIG_LAKE_MIN_RADIUS + ((identity >> 48) % radius_span) as i32,
        };
        Some(BigLakeSite { center, radii, identity })
    }

    /// Decides a big lake site against the terrain heights of its sample
    /// points: none when the lowest sample is at or just above sea level or
    /// the terrain varies too much; otherwise a lake one block below the
    /// lowest sample.
    pub fn accept(self, site: BigLakeSite, heights: &Vec<i32>) -> (r: Option<BigLake>)
        requires
            heights@.len() > 0,
            seq_min(heights@) > i32::MIN,
        ensures
            r == (if seq_min(heights@) <= SEA_LEVEL + 1 || seq_max(heights@) - seq_min(heights@)
                > BIG_LAKE_MAX_TERRAIN_VARIATION {
                None
            } else {
                Some(
                    BigLake {
                        center: site.center,
                        radii: site.radii,
                        level: (seq_min(heights@) - 1) as i32,
                        identity: site.identity,
                    },
                )
            }),
    {
        let (minimum, maximum) = height_extent(heights);
        if minimum <= SEA_LEVEL + 1 || maximum as i64 - minimum as i64
            > BIG_LAKE_MAX_TERRAIN_VARIATION as i64 {
            return None;
        }
        Some(
            BigLake {
                center: site.center,
                radii: site.radii,
                level: minimum - 1,
                identity: site.identity,
            },
        )
    }
}

impl BigLakeColumn {
    pub open spec fn spec_block(self, y: i32, surface: i32, terrain: BlockId) -> BlockId {
        match self {
            BigLakeColumn::Basin { level, bottom } => {
                if y > level && y <= surface {
                    BlockId::AIR
                } else if y > bottom && y <= level {
                    BlockId::WATER
                } else if y == bottom {
                    BlockId::DIRT
                } else {
                    terrain
                }
            },
            _ => terrain,
        }
    }

    /// A basin clears the terrain above its water, fills water down to its
    /// floor and lines the floor with dirt; islands and open land keep the terrain.
    pub fn block(self, y: i32, surface: i32, terrain: BlockId) -> (r: BlockId)
        ensures
            r == self.spec_block(y, surface, terrain),
    {
        match self {
            BigLakeColumn::Basin { level, bottom } => {
                if y > level && y <= surface {
                    BlockId::AIR
                } else if y > bottom && y <= level {
                    BlockId::WATER
                } else if y == bottom {
                    BlockId::DIRT
                } else {
                    terrain
                }
            },
            _ => terrain,
        }
    }

    pub open spec fn spec_bottom(self) -> Option<i32> {
        match self {
            BigLakeColumn::Basin { bottom, .. } => Some(bottom),
            _ => None,
        }
    }

    /// The basin's floor block.
    pub fn bottom(self) -> (r: Option<i32>)
        ensures
            r == self.spec_bottom(),
    {
        match self {
            BigLakeColumn::Basin { bottom, .. } => Some(bottom),
            _ => None,
        }
    }

    pub open spec fn spec_direct_sky_floor(self, surface: i32) -> int {
        match self {
            BigLakeColumn::Basin { bottom, .. } => bottom + 1,
            _ => surface as int,
        }
    }

    /// The lowest block that sees the sky directly.
    pub fn direct_sky_floor(self, surface: i32) -> (r: i32)
        requires
            self matches BigLakeColumn::Basin { bottom, .. } ==> bottom < i32::MAX,
        ensures
            r == self.spec_direct_sky_floor(surface),
    {
        match self {
            BigLakeColumn::Basin { bottom, .. } => bottom + 1,
            _ => surface,
        }
    }
}

} // verus!
