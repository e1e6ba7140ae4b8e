use vstd::prelude::*;

use crate::hashing::{noise_seed, noise_seed_spec};

verus! {

/// The three families of carved cave space.
#[derive(Clone, Copy, Debug, PartialEq, Eq, Structural, Hash)]
pub enum CaveType {
    Connected,
    Isolated,
    Ravine,
}

/// Per-field salts of the cave noise generators.
pub const CONNECTED_A_SEED: u64 = 0xA24B_AED4_963E_E407;
pub const CONNECTED_B_SEED: u64 = 0x9FB2_1C65_1E98_DF25;
pub const ISOLATED_SEED: u64 = 0xC13F_A9A9_02A6_328F;
pub const ISOLATED_DETAIL_SEED: u64 = 0x91E1_0DA5_C79E_7B1D;
pub const RAVINE_LINE_SEED: u64 = 0xD1B5_4A32_D192_ED03;
pub const RAVINE_REGION_SEED: u64 = 0xABC9_8388_FB8F_AC03;

/// Everything the cave carver derives from the world seed: the seeds of its
/// six gradient noise fields and the lowest block of the world.
#[derive(Clone, Copy, Debug, PartialEq, Eq, Structural)]
pub struct CaveSampler {
    pub connected_a: u32,
    pub connected_b: u32,
    pub isolated: u32,
    pub isolated_detail: u32,
    pub ravine_line: u32,
    pub ravine_region: u32,
    pub world_floor: i32,
}

impl CaveSampler {
    /// The sampler derived from a world seed and world floor.
    pub open spec fn spec_new(seed: u64, world_floor: i32) -> CaveSampler {
        CaveSampler {
            connected_a: noise_seed_spec(seed ^ CONNECTED_A_SEED),
            connected_b: noise_seed_spec(seed ^ CONNECTED_B_SEED),
            isolated: noise_seed_spec(seed ^ ISOLATED_SEED),
            isolated_detail: noise_seed_spec(seed ^ ISOLATED_DETAIL_SEED),
            ravine_line: noise_seed_spec(seed ^ RAVINE_LINE_SEED),
            ravine_region: noise_seed_spec(seed ^ RAVINE_REGION_SEED),
            world_floor,
        }
    }

    /// Seeds every noise field from the world seed and its own salt.
    pub fn new(seed: u64, world_floor: i32) -> (r: CaveSampler)
        ensures
            r.connected_a == noise_seed_spec(seed ^ CONNECTED_A_SEED),
            r.connected_b == noise_seed_spec(seed ^ CONNECTED_B_SEED),
            r.isolated == noise_seed_spec(seed ^ ISOLATED_SEED),
            r.isolated_detail == noise_seed_spec(seed ^ ISOLATED_DETAIL_SEED),
            r.ravine_line == noise_seed_spec(seed ^ RAVINE_LINE_SEED),
            r.ravine_region == noise_seed_spec(seed ^ RAVINE_REGION_SEED),
            r.world_floor == world_floor,
            r == CaveSampler::spec_new(seed, world_floor),
    {
        CaveSampler {
            connected_a: noise_seed(seed ^ CONNECTED_A_SEED),
            connected_b: noise_seed(seed ^ CONNECTED_B_SEED),
            isolated: noise_seed(seed ^ ISOLATED_SEED),
            isolated_detail: noise_seed(seed ^ ISOLATED_DETAIL_SEED),
            ravine_line: noise_seed(seed ^ RAVINE_LINE_SEED),
            ravine_region: noise_seed(seed ^ RAVINE_REGION_SEED),
            world_floor,
        }
    }
}

/// Skylight inside a ravine: full light at the surface, one level darker per
/// block below it, never below zero.
pub open spec fn ravine_light_spec(surface: i32, y: i32) -> int {
    let level = 15 - (surface - y);
    if level < 0 {
        0
    } else if level > 15 {
        15
    } else {
        level
    }
}

/// The skylight of a ravine cell, or `None` outside a ravine.
pub fn ravine_skylight(in_ravine: bool, surface: i32, y: i32) -> (r: Option<u8>)
    ensures
        in_ravine ==> r == Some(ravine_light_spec(surface, y) as u8),
        !in_ravine ==> r.is_none(),
{
    if !in_ravine {
        return None;
    }
    let depth = surface as i64 - y as i64;
    let level = 15 - depth;
    if level < 0 {
        Some(0)
    } else if level > 15 {
        Some(15)
    } else {
        Some(level as u8)
    }
}

} // verus!
