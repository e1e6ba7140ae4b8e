use vstd::prelude::*;

use crate::geometry::{IVec2, IVec3};
use crate::hashing::{hash, hash_spec};

verus! {

pub const ATTEMPT_SEED: u64 = 0xC76C_51A3_0654_BE30;

/// The biome of a region: it decides how many trees a chunk attempts to grow.
#[derive(Clone, Copy, Debug, PartialEq, Eq, Structural, Hash)]
pub enum BiomeZone {
    Plains,
    Forest,
    VeryDreamcoreOneTree,
}

impl BiomeZone {
    /// The zone's display name.
    pub fn name(self) -> (r: String)
        ensures
            r@ == (match self {
                BiomeZone::Plains => "Plains"@,
                BiomeZone::Forest => "Forest"@,
                BiomeZone::VeryDreamcoreOneTree => "Very Dreamcore One Tree"@,
            }),
    {
        match self {
            BiomeZone::Plains => "Plains".to_owned(),
            BiomeZone::Forest => "Forest".to_owned(),
            BiomeZone::VeryDreamcoreOneTree => "Very Dreamcore One Tree".to_owned(),
        }
    }
}

/// Decides biome zones and the tree attempts of each chunk.
#[derive(Clone, Copy, Debug, PartialEq, Eq, Structural)]
pub struct BiomeSampler {
    seed: u64,
}

/// How a chunk grows trees: its zone, how many placements it attempts, and the
/// anchor of the single dreamcore tree when the chunk owns it.
#[derive(Clone, Copy, Debug, PartialEq, Eq, Structural)]
pub struct TreeZonePlan {
    pub zone: BiomeZone,
    pub attempts: u8,
    pub dreamcore_tree: Option<IVec2>,
}

/// The chunk, along one axis, that holds a block coordinate.
pub open spec fn chunk_axis_of(value: i32) -> int {
    value as int / 16
}

/// The plan of a chunk given its zone and, inside a dreamcore zone, the
/// zone's anchor: one plains chunk in ten attempts a tree, a forest chunk
/// attempts three to ten, and a dreamcore zone grows one tree in the chunk
/// that holds its anchor.
pub open spec fn plan_spec(seed: u64, chunk: IVec3, zone: BiomeZone, anchor: Option<IVec2>) -> TreeZonePlan {
    let identity = hash_spec(seed ^ ATTEMPT_SEED, chunk.x, chunk.z);
    match zone {
        BiomeZone::Plains => TreeZonePlan {
            zone,
            attempts: if identity % 10 == 0 {
                1
            } else {
                0
            },
            dreamcore_tree: None,
        },
        BiomeZone::Forest => TreeZonePlan {
            zone,
            attempts: (3 + identity % 8) as u8,
            dreamcore_tree: None,
        },
        BiomeZone::VeryDreamcoreOneTree => {
            let a = anchor.unwrap();
            let owns = chunk_axis_of(a.x) == chunk.x && chunk_axis_of(a.y) == chunk.z;
            TreeZonePlan {
                zone,
                attempts: if owns {
                    1
                } else {
                    0
                },
                dreamcore_tree: if owns {
                    Some(a)
                } else {
                    None
                },
            }
        },
    }
}

impl BiomeSampler {
    pub fn new(seed: u64) -> (r: BiomeSampler)
        ensures
            r.spec_seed() == seed,
    {
        BiomeSampler { seed }
    }

    pub closed spec fn spec_seed(self) -> u64 {
        self.seed
    }

    pub fn seed(self) -> (r: u64)
        ensures
            r == self.spec_seed(),
    {
        self.seed
    }

    /// The tree plan of a chunk whose center lies in `zone`; inside a dreamcore
    /// zone `anchor` is that zone's center.
    pub fn tree_plan_for_chunk(self, chunk: IVec3, zone: BiomeZone, anchor: Option<IVec2>) -> (r:
        TreeZonePlan)
        requires
            zone == BiomeZone::VeryDreamcoreOneTree ==> anchor is Some,
        ensures
            r == plan_spec(self.spec_seed(), chunk, zone, anchor),
    {
        let identity = hash(self.seed ^ ATTEMPT_SEED, chunk.x, chunk.z);
        match zone {
            BiomeZone::Plains => TreeZonePlan {
                zone,
                attempts: if identity % 10 == 0 {
                    1
                } else {
                    0
                },
                dreamcore_tree: None,
            },
            BiomeZone::Forest => TreeZonePlan {
                zone,
                attempts: 3 + (identity % 8) as u8,
                dreamcore_tree: None,
            },
            BiomeZone::VeryDreamcoreOneTree => {
                let a = match anchor {
                    Some(a) => a,
                    None => IVec2 { x: 0, y: 0 },
                };
                let ax = match a.x.checked_div_euclid(16) {
                    Some(v) => v,
                    None => 0,
                };
                let az = match a.y.checked_div_euclid(16) {
                    Some(v) => v,
                    None => 0,
                };
                assert(i32::MIN <= a.x as int / 16 <= i32::MAX && i32::MIN <= a.y as int / 16
                    <= i32::MAX) by (nonlinear_arith);
                let owns = ax == chunk.x && az == chunk.z;
                TreeZonePlan {
                    zone,
                    attempts: if owns {
                        1
                    } else {
                        0
                    },
                    dreamcore_tree: if owns {
                        Some(a)
                    } else {
                        None
                    },
                }
            },
        }
    }
}

/// Plains chunks attempt at most one tree and forest chunks three to ten.
pub proof fn law_tree_attempt_ranges(seed: u64, chunk: IVec3, anchor: Option<IVec2>)
    ensures
        plan_spec(seed, chunk, BiomeZone::Plains, anchor).attempts <= 1,
        3 <= plan_spec(seed, chunk, BiomeZone::Forest, anchor).attempts <= 10,
{
}

} // verus!
