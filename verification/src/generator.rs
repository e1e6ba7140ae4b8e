use vstd::prelude::*;

use crate::big_lakes::BigLakeSampler;
use crate::biomes::BiomeSampler;
use crate::blocks::BlockId;
use crate::caves::CaveSampler;
use crate::geometry::{IVec2, IVec3};
use crate::hashing::{dirt_depth as procedural_dirt_depth, dirt_depth_spec};
use crate::lakes::LakeSampler;
use crate::rivers::RiverSampler;
use crate::sediment::SedimentSampler;
use crate::terrain::{TerrainDimensions, SEA_LEVEL};
use crate::underground::{UndergroundDepositSampler, UndergroundLakeSampler};

verus! {

/// Soil depth of the flat terrain of the oldest worlds.
pub const LEGACY_DIRT_DEPTH: i32 = 4;

/// Surface height of the flat terrain of the oldest worlds.
pub const LEGACY_SURFACE_HEIGHT: i32 = 1;

/// Version of the generator that creates new worlds.
pub const GENERATOR_VERSION: u8 = 9;

/// The terrain generator a world was created with; each version adds
/// features and keeps the terrain of older saves unchanged.
#[derive(Clone, Copy, Debug, PartialEq, Eq, Structural, Hash)]
pub enum GeneratorKind {
    LegacyFlat,
    ProceduralV1,
    ProceduralV2,
    ProceduralV3,
    ProceduralV4,
    ProceduralV5,
    ProceduralV6,
    ProceduralV7,
    ProceduralV8,
    ProceduralV9,
}

/// Position of a generator version in the order of releases.
pub open spec fn version_of(kind: GeneratorKind) -> int {
    match kind {
        GeneratorKind::LegacyFlat => 0,
        GeneratorKind::ProceduralV1 => 1,
        GeneratorKind::ProceduralV2 => 2,
        GeneratorKind::ProceduralV3 => 3,
        GeneratorKind::ProceduralV4 => 4,
        GeneratorKind::ProceduralV5 => 5,
        GeneratorKind::ProceduralV6 => 6,
        GeneratorKind::ProceduralV7 => 7,
        GeneratorKind::ProceduralV8 => 8,
        GeneratorKind::ProceduralV9 => 9,
    }
}

fn version(kind: GeneratorKind) -> (r: u8)
    ensures
        r == version_of(kind),
{
    match kind {
        GeneratorKind::LegacyFlat => 0,
        GeneratorKind::ProceduralV1 => 1,
        GeneratorKind::ProceduralV2 => 2,
        GeneratorKind::ProceduralV3 => 3,
        GeneratorKind::ProceduralV4 => 4,
        GeneratorKind::ProceduralV5 => 5,
        GeneratorKind::ProceduralV6 => 6,
        GeneratorKind::ProceduralV7 => 7,
        GeneratorKind::ProceduralV8 => 8,
        GeneratorKind::ProceduralV9 => 9,
    }
}

/// The generator of a world: its dimensions, seed and version.
#[derive(Clone, Copy, Debug, PartialEq, Eq, Structural)]
pub struct WorldGenerator {
    dimensions: TerrainDimensions,
    seed: u64,
    kind: GeneratorKind,
}

/// Block of the early terrain at height `y`: air above the surface, grass on
/// it, dirt down to `dirt_depth` blocks below it, stone underneath.
pub open spec fn block_at_height_spec(y: i32, surface: i32, dirt_depth: i32) -> BlockId {
    if y > surface {
        BlockId::AIR
    } else if y == surface {
        BlockId::GRASS
    } else if y >= surface - dirt_depth {
        BlockId::DIRT
    } else {
        BlockId::STONE
    }
}

/// Block of the continental terrain at height `y`: water fills everything
/// above the surface up to sea level, grass covers only land surfaces, dirt
/// lies under surfaces no deeper than four blocks below sea level, stone elsewhere.
pub open spec fn continental_block_spec(y: i32, surface: i32, dirt_depth: i32) -> BlockId {
    if y > surface {
        if y <= SEA_LEVEL {
            BlockId::WATER
        } else {
            BlockId::AIR
        }
    } else if surface >= SEA_LEVEL && y == surface {
        BlockId::GRASS
    } else if surface >= -4 && y >= surface - dirt_depth {
        BlockId::DIRT
    } else {
        BlockId::STONE
    }
}

/// Continental terrain puts grass only on land: a block is grass exactly
/// when it is the surface block of a column whose surface lies at or above
/// sea level, so no ocean floor is grass. Above the surface, water fills up
/// to sea level and air lies above; below the surface lie only dirt and stone.
pub proof fn law_grass_covers_only_land(y: i32, surface: i32, dirt_depth: i32)
    ensures
        (continental_block_spec(y, surface, dirt_depth) == BlockId::GRASS) == (y == surface
            && surface >= SEA_LEVEL),
        surface < SEA_LEVEL ==> continental_block_spec(y, surface, dirt_depth) != BlockId::GRASS,
        y > surface ==> continental_block_spec(y, surface, dirt_depth) == if y <= SEA_LEVEL {
            BlockId::WATER
        } else {
            BlockId::AIR
        },
        y < surface ==> continental_block_spec(y, surface, dirt_depth) == BlockId::DIRT
            || continental_block_spec(y, surface, dirt_depth) == BlockId::STONE,
        surface < -4 && y <= surface ==> continental_block_spec(y, surface, dirt_depth)
            == BlockId::STONE,
{
}

/// Block of the early terrain at height `y`.
pub fn block_at_height(y: i32, surface: i32, dirt_depth: i32) -> (r: BlockId)
    ensures
        r == block_at_height_spec(y, surface, dirt_depth),
{
    if y > surface {
        BlockId::AIR
    } else if y == surface {
        BlockId::GRASS
    } else if y as i64 >= surface as i64 - dirt_depth as i64 {
        BlockId::DIRT
    } else {
        BlockId::STONE
    }
}

/// Block of the continental terrain at height `y`.
pub fn continental_block_at_height(y: i32, surface: i32, dirt_depth: i32) -> (r: BlockId)
    ensures
        r == continental_block_spec(y, surface, dirt_depth),
{
    if y > surface {
        if y <= SEA_LEVEL {
            BlockId::WATER
        } else {
            BlockId::AIR
        }
    } else if surface >= SEA_LEVEL && y == surface {
        BlockId::GRASS
    } else if surface >= -4 && y as i64 >= surface as i64 - dirt_depth as i64 {
        BlockId::DIRT
    } else {
        BlockId::STONE
    }
}

/// The first and one-past-last chunk of `count` chunks centered on zero, with
/// the count read as a two's complement 32-bit value.
pub open spec fn centered_range_spec(count: u32) -> (int, int) {
    let wrapped = count as i32 as int;
    let half = if wrapped >= 0 {
        wrapped / 2
    } else {
        -((-wrapped) / 2)
    };
    (-half, -half + wrapped)
}

/// The half-open range of chunk coordinates that holds `count` chunks centered
/// on zero.
pub fn centered_chunk_range(count: u32) -> (r: (i32, i32))
    ensures
        r.0 == centered_range_spec(count).0,
        r.1 == centered_range_spec(count).1,
{
    let wrapped = count as i32;
    let start = -(wrapped / 2);
    (start, start + wrapped)
}

/// Every layer of the world lies within 32-bit block coordinates.
pub open spec fn floor_fits(dimensions: TerrainDimensions) -> bool {
    dimensions.spec_chunks_below() * 16 <= i32::MAX
}

/// The lowest block of the world.
pub open spec fn world_floor_spec(dimensions: TerrainDimensions) -> int {
    -(dimensions.spec_chunks_below() as int) * 16
}

impl WorldGenerator {
    pub closed spec fn spec_dimensions(self) -> TerrainDimensions {
        self.dimensions
    }

    pub closed spec fn spec_seed(self) -> u64 {
        self.seed
    }

    pub closed spec fn spec_kind(self) -> GeneratorKind {
        self.kind
    }

    /// The generator of newly created worlds.
    pub fn procedural(dimensions: TerrainDimensions, seed: u64) -> (r: WorldGenerator)
        ensures
            r.spec_dimensions() == dimensions,
            r.spec_seed() == seed,
            r.spec_kind() == GeneratorKind::ProceduralV9,
    {
        WorldGenerator { dimensions, seed, kind: GeneratorKind::ProceduralV9 }
    }

    /// Restores terrain created after rivers and biomes and before trees.
    pub fn procedural_v8(dimensions: TerrainDimensions, seed: u64) -> (r: WorldGenerator)
        ensures
            r.spec_dimensions() == dimensions,
            r.spec_seed() == seed,
            r.spec_kind() == GeneratorKind::ProceduralV8,
    {
        WorldGenerator { dimensions, seed, kind: GeneratorKind::ProceduralV8 }
    }

    /// Restores terrain created after underground deposits and before rivers.
    pub fn procedural_v7(dimensions: TerrainDimensions, seed: u64) -> (r: WorldGenerator)
        ensures
            r.spec_dimensions() == dimensions,
            r.spec_seed() == seed,
            r.spec_kind() == GeneratorKind::ProceduralV7,
    {
        WorldGenerator { dimensions, seed, kind: GeneratorKind::ProceduralV7 }
    }

    /// Restores terrain created after sediments and before underground deposits.
    pub fn procedural_v6(dimensions: TerrainDimensions, seed: u64) -> (r: WorldGenerator)
        ensures
            r.spec_dimensions() == dimensions,
            r.spec_seed() == seed,
            r.spec_kind() == GeneratorKind::ProceduralV6,
    {
        WorldGenerator { dimensions, seed, kind: GeneratorKind::ProceduralV6 }
    }

    /// Restores terrain created after underground lakes and before sediments.
    pub fn procedural_v5(dimensions: TerrainDimensions, seed: u64) -> (r: WorldGenerator)
        ensures
            r.spec_dimensions() == dimensions,
            r.spec_seed() == seed,
            r.spec_kind() == GeneratorKind::ProceduralV5,
    {
        WorldGenerator { dimensions, seed, kind: GeneratorKind::ProceduralV5 }
    }

    /// Restores terrain created after oceans and before underground lakes.
    pub fn procedural_v4(dimensions: TerrainDimensions, seed: u64) -> (r: WorldGenerator)
        ensures
            r.spec_dimensions() == dimensions,
            r.spec_seed() == seed,
            r.spec_kind() == GeneratorKind::ProceduralV4,
    {
        WorldGenerator { dimensions, seed, kind: GeneratorKind::ProceduralV4 }
    }

    /// Restores terrain created after lakes and before oceans.
    pub fn procedural_v3(dimensions: TerrainDimensions, seed: u64) -> (r: WorldGenerator)
        ensures
            r.spec_dimensions() == dimensions,
            r.spec_seed() == seed,
            r.spec_kind() == GeneratorKind::ProceduralV3,
    {
        WorldGenerator { dimensions, seed, kind: GeneratorKind::ProceduralV3 }
    }

    /// Restores terrain created after caves and before lakes.
    pub fn procedural_v2(dimensions: TerrainDimensions, seed: u64) -> (r: WorldGenerator)
        ensures
            r.spec_dimensions() == dimensions,
            r.spec_seed() == seed,
            r.spec_kind() == GeneratorKind::ProceduralV2,
    {
        WorldGenerator { dimensions, seed, kind: GeneratorKind::ProceduralV2 }
    }

    /// Restores terrain created before cave generation existed.
    pub fn procedural_v1(dimensions: TerrainDimensions, seed: u64) -> (r: WorldGenerator)
        ensures
            r.spec_dimensions() == dimensions,
            r.spec_seed() == seed,
            r.spec_kind() == GeneratorKind::ProceduralV1,
    {
        WorldGenerator { dimensions, seed, kind: GeneratorKind::ProceduralV1 }
    }

    /// Restores the flat terrain of the oldest worlds.
    pub fn legacy_flat(dimensions: TerrainDimensions, seed: u64) -> (r: WorldGenerator)
        ensures
            r.spec_dimensions() == dimensions,
            r.spec_seed() == seed,
            r.spec_kind() == GeneratorKind::LegacyFlat,
    {
        WorldGenerator { dimensions, seed, kind: GeneratorKind::LegacyFlat }
    }

    pub fn dimensions(self) -> (r: TerrainDimensions)
        ensures
            r == self.spec_dimensions(),
    {
        self.dimensions
    }

    pub fn seed(self) -> (r: u64)
        ensures
            r == self.spec_seed(),
    {
        self.seed
    }

    pub fn kind(self) -> (r: GeneratorKind)
        ensures
            r == self.spec_kind(),
    {
        self.kind
    }

    /// The generator uses the continental terrain with oceans.
    pub open spec fn spec_continental(self) -> bool {
        version_of(self.spec_kind()) >= 4
    }

    pub open spec fn spec_dirt_depth(self, x: i32, z: i32) -> i32 {
        if self.spec_kind() == GeneratorKind::LegacyFlat {
            LEGACY_DIRT_DEPTH
        } else {
            dirt_depth_spec(self.spec_seed(), x, z)
        }
    }

    /// Soil depth of a column: four blocks on flat terrain, a seeded three or
    /// four blocks on procedural terrain.
    pub fn dirt_depth(self, x: i32, z: i32) -> (r: i32)
        ensures
            r == self.spec_dirt_depth(x, z),
            3 <= r <= 4,
    {
        match self.kind {
            GeneratorKind::LegacyFlat => LEGACY_DIRT_DEPTH,
            _ => procedural_dirt_depth(self.seed, x, z),
        }
    }

    pub open spec fn spec_terrain_block(self, y: i32, surface: i32, dirt_depth: i32) -> BlockId {
        if self.spec_continental() {
            continental_block_spec(y, surface, dirt_depth)
        } else {
            block_at_height_spec(y, surface, dirt_depth)
        }
    }

    /// The terrain layering of the generator's version at height `y`.
    pub fn terrain_block(self, y: i32, surface: i32, dirt_depth: i32) -> (r: BlockId)
        ensures
            r == self.spec_terrain_block(y, surface, dirt_depth),
    {
        if version(self.kind) < 4 {
            block_at_height(y, surface, dirt_depth)
        } else {
            continental_block_at_height(y, surface, dirt_depth)
        }
    }

    pub open spec fn spec_maximum_generated_y(self) -> i32 {
        match self.spec_kind() {
            GeneratorKind::LegacyFlat => 1,
            GeneratorKind::ProceduralV1 | GeneratorKind::ProceduralV2
            | GeneratorKind::ProceduralV3 => 7,
            GeneratorKind::ProceduralV9 => 31,
            _ => 16,
        }
    }

    /// The highest block the generator can produce; chunks above it are empty.
    pub fn maximum_generated_y(self) -> (r: i32)
        ensures
            r == self.spec_maximum_generated_y(),
    {
        match self.kind {
            GeneratorKind::LegacyFlat => 1,
            GeneratorKind::ProceduralV1 | GeneratorKind::ProceduralV2
            | GeneratorKind::ProceduralV3 => 7,
            GeneratorKind::ProceduralV9 => 31,
            _ => 16,
        }
    }

    /// The chunk lies inside the generated world: horizontally within the
    /// centered extent, vertically within the layers below and above sea level.
    pub open spec fn spec_contains_chunk(self, position: IVec3) -> bool {
        let x = centered_range_spec(self.spec_dimensions().spec_chunks_x());
        let z = centered_range_spec(self.spec_dimensions().spec_chunks_z());
        let below = self.spec_dimensions().spec_chunks_below() as i32 as int;
        let above = self.spec_dimensions().spec_chunks_above() as i32 as int;
        &&& x.0 <= position.x < x.1
        &&& -below <= position.y < above
        &&& z.0 <= position.z < z.1
    }

    /// Whether a chunk lies inside the generated world.
    pub fn contains_chunk(self, position: IVec3) -> (r: bool)
        ensures
            r == self.spec_contains_chunk(position),
    {
        let x = centered_chunk_range(self.dimensions.chunks_x());
        let z = centered_chunk_range(self.dimensions.chunks_z());
        let below = self.dimensions.chunks_below_sea_level() as i32 as i64;
        let above = self.dimensions.chunks_above_sea_level() as i32;
        x.0 <= position.x && position.x < x.1 && -below <= position.y as i64 && position.y < above
            && z.0 <= position.z && position.z < z.1
    }

    /// Whether chunk generation can produce blocks at this chunk: it lies in
    /// the world and not above the highest generated block.
    pub open spec fn spec_may_generate(self, position: IVec3) -> bool {
        self.spec_contains_chunk(position) && position.y * 16 <= self.spec_maximum_generated_y()
    }

    /// Whether chunk generation can produce blocks at this chunk.
    pub fn may_generate(self, position: IVec3) -> (r: bool)
        ensures
            r == self.spec_may_generate(position),
    {
        self.contains_chunk(position) && (position.y as i64) * 16
            <= self.maximum_generated_y() as i64
    }

    /// The cave carver, from the second procedural version on.
    pub fn cave_sampler(self) -> (r: Option<CaveSampler>)
        requires
            floor_fits(self.spec_dimensions()),
        ensures
            r is Some <==> version_of(self.spec_kind()) >= 2,
            r matches Some(s) ==> s == CaveSampler::spec_new(
                self.spec_seed(),
                world_floor_spec(self.spec_dimensions()) as i32,
            ),
    {
        if version(self.kind) >= 2 {
            let world_floor = -((self.dimensions.chunks_below_sea_level() as i32) * 16);
            Some(CaveSampler::new(self.seed, world_floor))
        } else {
            None
        }
    }

    /// Surface lakes: over rolling terrain in the third version, over
    /// continental terrain from the fourth on.
    pub fn lake_sampler(self) -> (r: Option<LakeSampler>)
        ensures
            version_of(self.spec_kind()) < 3 ==> r.is_none(),
            version_of(self.spec_kind()) == 3 ==> r == Some(
                LakeSampler { seed: self.spec_seed(), continental: false },
            ),
            version_of(self.spec_kind()) > 3 ==> r == Some(
                LakeSampler { seed: self.spec_seed(), continental: true },
            ),
    {
        let v = version(self.kind);
        if v == 3 {
            Some(LakeSampler::new(self.seed))
        } else if v > 3 {
            Some(LakeSampler::continental(self.seed))
        } else {
            None
        }
    }

    /// Underground chambers, from the fifth version on.
    pub fn underground_lake_sampler(self) -> (r: Option<UndergroundLakeSampler>)
        requires
            floor_fits(self.spec_dimensions()),
        ensures
            r is Some <==> version_of(self.spec_kind()) >= 5,
            r matches Some(s) ==> s == (UndergroundLakeSampler {
                seed: self.spec_seed(),
                world_floor: world_floor_spec(self.spec_dimensions()) as i32,
            }),
    {
        if version(self.kind) >= 5 {
            let world_floor = -((self.dimensions.chunks_below_sea_level() as i32) * 16);
            Some(UndergroundLakeSampler::new(self.seed, world_floor))
        } else {
            None
        }
    }

    /// Sediments on submerged floors and beaches, from the sixth version on.
    pub fn sediment_sampler(self) -> (r: Option<SedimentSampler>)
        ensures
            r is Some <==> version_of(self.spec_kind()) >= 6,
            r matches Some(s) ==> s.seed == self.spec_seed(),
    {
        if version(self.kind) >= 6 {
            Some(SedimentSampler::new(self.seed))
        } else {
            None
        }
    }

    /// Gravel and clay pockets, from the seventh version on.
    pub fn underground_deposit_sampler(self) -> (r: Option<UndergroundDepositSampler>)
        ensures
            r is Some <==> version_of(self.spec_kind()) >= 7,
            r matches Some(s) ==> s.seed == self.spec_seed(),
    {
        if version(self.kind) >= 7 {
            Some(UndergroundDepositSampler::new(self.seed))
        } else {
            None
        }
    }

    /// Rivers, from the eighth version on.
    pub fn river_sampler(self) -> (r: Option<RiverSampler>)
        ensures
            r is Some <==> version_of(self.spec_kind()) >= 8,
            r matches Some(s) ==> s.seed == self.spec_seed(),
    {
        if version(self.kind) >= 8 {
            Some(RiverSampler::new(self.seed))
        } else {
            None
        }
    }

    /// Big lakes, from the eighth version on.
    pub fn big_lake_sampler(self) -> (r: Option<BigLakeSampler>)
        ensures
            r is Some <==> version_of(self.spec_kind()) >= 8,
            r matches Some(s) ==> s.seed == self.spec_seed(),
    {
        if version(self.kind) >= 8 {
            Some(BigLakeSampler::new(self.seed))
        } else {
            None
        }
    }

    /// Trees, in the ninth version only; they are planned by biome.
    pub fn tree_biomes(self) -> (r: Option<BiomeSampler>)
        ensures
            r is Some <==> self.spec_kind() == GeneratorKind::ProceduralV9,
            r matches Some(s) ==> s.spec_seed() == self.spec_seed(),
    {
        if version(self.kind) == 9 {
            Some(BiomeSampler::new(self.seed))
        } else {
            None
        }
    }
}

impl Default for WorldGenerator {
    /// The current generator over the default dimensions with seed zero.
    fn default() -> (r: WorldGenerator)
        ensures
            r.spec_kind() == GeneratorKind::ProceduralV9,
            r.spec_seed() == 0,
            r.spec_dimensions().spec_chunks_x() == 512,
            r.spec_dimensions().spec_chunks_z() == 512,
            r.spec_dimensions().spec_chunks_below() == 32,
            r.spec_dimensions().spec_chunks_above() == 32,
    {
        WorldGenerator::procedural(TerrainDimensions::default(), 0)
    }
}

/// Column the spawn search starts from: its x and z coordinates.
pub const SPAWN_ORIGIN_X: i32 = 0;
pub const SPAWN_ORIGIN_Z: i32 = 5;

/// Widest ring the spawn search tries.
pub const SPAWN_SEARCH_RADIUS: i32 = 256;

/// The `index`-th column of the square ring at distance `radius` around the
/// spawn origin, in search order: the lowest and highest rows first, column
/// by column with the low end before the high end, then the two side
/// columns, row by row, with the low end before the high end.
pub open spec fn spawn_ring_column(radius: int, index: int) -> IVec2 {
    let rows = 2 * (2 * radius + 1);
    if index < rows {
        IVec2 {
            x: (SPAWN_ORIGIN_X - radius + index / 2) as i32,
            y: (if index % 2 == 0 {
                SPAWN_ORIGIN_Z - radius
            } else {
                SPAWN_ORIGIN_Z + radius
            }) as i32,
        }
    } else {
        let j = index - rows;
        IVec2 {
            x: (if j % 2 == 0 {
                SPAWN_ORIGIN_X - radius
            } else {
                SPAWN_ORIGIN_X + radius
            }) as i32,
            y: (SPAWN_ORIGIN_Z - radius + 1 + j / 2) as i32,
        }
    }
}

/// How many columns the ring at distance `radius` lists: both rows in full,
/// and both side columns without their corners.
pub open spec fn spawn_ring_length(radius: int) -> int {
    2 * (2 * radius + 1) + if radius > 0 {
        2 * (2 * radius - 1)
    } else {
        0
    }
}

/// The columns the spawn search tries at distance `radius` from the spawn
/// origin, in order; the ring of radius zero lists the origin twice.
pub fn spawn_ring(radius: i32) -> (r: Vec<IVec2>)
    requires
        0 <= radius <= SPAWN_SEARCH_RADIUS,
    ensures
        r@.len() == spawn_ring_length(radius as int),
        forall|i: int| 0 <= i < r@.len() ==> #[trigger] r@[i] == spawn_ring_column(radius as int, i),
{
    let mut ring: Vec<IVec2> = Vec::new();
    let low_x = SPAWN_ORIGIN_X - radius;
    let high_x = SPAWN_ORIGIN_X + radius;
    let low_z = SPAWN_ORIGIN_Z - radius;
    let high_z = SPAWN_ORIGIN_Z + radius;
    let mut x = low_x;
    while x <= high_x
        invariant
            0 <= radius <= SPAWN_SEARCH_RADIUS,
            low_x == SPAWN_ORIGIN_X - radius,
            high_x == SPAWN_ORIGIN_X + radius,
            low_z == SPAWN_ORIGIN_Z - radius,
            high_z == SPAWN_ORIGIN_Z + radius,
            low_x <= x <= high_x + 1,
            ring@.len() == 2 * (x - low_x),
            forall|i: int| 0 <= i < ring@.len() ==> #[trigger] ring@[i] == spawn_ring_column(radius as int, i),
        decreases high_x + 1 - x,
    {
        ring.push(IVec2 { x, y: low_z });
        ring.push(IVec2 { x, y: high_z });
        proof {
            let n = ring@.len() as int;
            assert((n - 2) / 2 == x - low_x && (n - 2) % 2 == 0);
            assert((n - 1) / 2 == x - low_x && (n - 1) % 2 == 1);
        }
        x = x + 1;
    }
    let mut z = low_z + 1;
    while z < high_z
        invariant
            0 <= radius <= SPAWN_SEARCH_RADIUS,
            low_x == SPAWN_ORIGIN_X - radius,
            high_x == SPAWN_ORIGIN_X + radius,
            low_z == SPAWN_ORIGIN_Z - radius,
            high_z == SPAWN_ORIGIN_Z + radius,
            low_z + 1 <= z,
            z <= high_z || (radius == 0 && z == low_z + 1),
            ring@.len() == 2 * (2 * radius + 1) + 2 * (z - low_z - 1),
            forall|i: int| 0 <= i < ring@.len() ==> #[trigger] ring@[i] == spawn_ring_column(radius as int, i),
        decreases high_z - z,
    {
        ring.push(IVec2 { x: low_x, y: z });
        ring.push(IVec2 { x: high_x, y: z });
        proof {
            let rows = 2 * (2 * radius + 1);
            let n = ring@.len() as int;
            assert((n - 2 - rows) / 2 == z - low_z - 1 && (n - 2 - rows) % 2 == 0);
            assert((n - 1 - rows) / 2 == z - low_z - 1 && (n - 1 - rows) % 2 == 1);
        }
        z = z + 1;
    }
    ring
}

impl WorldGenerator {
    /// Continental worlds search for a spawn on land; older worlds spawn at
    /// the origin column's surface.
    pub fn searches_spawn(self) -> (r: bool)
        ensures
            r == (version_of(self.spec_kind()) >= 4),
    {
        version(self.kind) >= 4
    }
}

/// A spawn column: its surface block is grass above sea level, with air
/// above it; the player spawns on that grass block.
pub open spec fn spawn_site_spec(
    x: i32,
    z: i32,
    surface: i32,
    ground: Option<BlockId>,
    above: Option<BlockId>,
) -> Option<IVec3> {
    if surface > SEA_LEVEL && ground == Some(BlockId::GRASS) && above == Some(BlockId::AIR) {
        Some(IVec3 { x, y: surface, z })
    } else {
        None
    }
}

/// The spawn block of a column, from its surface height, the block at the
/// surface and the block above it, if the column is a spawn column.
pub fn spawn_site(
    x: i32,
    z: i32,
    surface: i32,
    ground: Option<BlockId>,
    above: Option<BlockId>,
) -> (r: Option<IVec3>)
    ensures
        r == spawn_site_spec(x, z, surface, ground, above),
{
    if surface <= SEA_LEVEL {
        return None;
    }
    match (ground, above) {
        (Some(BlockId::GRASS), Some(BlockId::AIR)) => Some(IVec3 { x, y: surface, z }),
        _ => None,
    }
}

} // verus!
