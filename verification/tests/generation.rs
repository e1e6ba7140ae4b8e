use survival_realms::blocks::BlockId;
use survival_realms::flags::ChunkFlags;
use survival_realms::generation::{CellSample, ChunkSamples, ColumnSample};
use survival_realms::generator::{spawn_ring, spawn_site, WorldGenerator, LEGACY_SURFACE_HEIGHT};
use survival_realms::geometry::{IVec2, IVec3, UVec3};
use survival_realms::terrain::TerrainDimensions;
use survival_realms::trees::{GeneratedTree, TreeShape};
use survival_realms::underground::UndergroundDepositSampler;

fn column(surface: i32) -> ColumnSample {
    ColumnSample {
        surface,
        sediment: None,
        big_lake: None,
        river: None,
        lake: None,
    }
}

fn cell() -> CellSample {
    CellSample {
        cave_air: false,
        in_ravine: false,
        in_chamber: false,
        in_deposits: Vec::new(),
    }
}

#[test]
fn legacy_generator_keeps_the_old_flat_height() {
    let generator = WorldGenerator::legacy_flat(TerrainDimensions::default(), 99);
    assert_eq!(LEGACY_SURFACE_HEIGHT, 1);
    assert_eq!(
        generator.base_block(IVec3::new(0, 1, 0), column(LEGACY_SURFACE_HEIGHT), &cell(), None, &Vec::new()),
        Some(BlockId::GRASS)
    );
}

#[test]
fn legacy_chunks_are_loaded_dirty_and_grow_grass() {
    let generator = WorldGenerator::legacy_flat(TerrainDimensions::default(), 0);
    let chunk = generator
        .generate_chunk(IVec3::new(0, 0, 0), &ChunkSamples::level(LEGACY_SURFACE_HEIGHT))
        .unwrap();
    let flags = chunk.flags();
    assert!(flags.contains(ChunkFlags::LOADED | ChunkFlags::DIRTY | ChunkFlags::GRASS_TICKS));
    assert!(!flags.contains(ChunkFlags::FLUID_SOURCES));
    assert_eq!(chunk.block(UVec3::new(3, 1, 3)), BlockId::GRASS);
    assert_eq!(chunk.block(UVec3::new(3, 0, 3)), BlockId::DIRT);
    assert_eq!(chunk.block(UVec3::new(3, 2, 3)), BlockId::AIR);
    assert_eq!(chunk.skylight(UVec3::new(3, 2, 3)), 15);
    assert_eq!(chunk.skylight(UVec3::new(3, 0, 3)), 0);
}

#[test]
fn oceans_fill_up_to_sea_level_and_record_fluid_sources() {
    let generator = WorldGenerator::procedural(TerrainDimensions::default(), 3);
    let chunk = generator
        .generate_chunk(IVec3::new(0, -1, 0), &ChunkSamples::level(-5))
        .unwrap();
    assert_eq!(chunk.block(UVec3::new(0, 15, 0)), BlockId::WATER);
    assert_eq!(chunk.block(UVec3::new(0, 12, 0)), BlockId::WATER);
    assert_ne!(chunk.block(UVec3::new(0, 11, 0)), BlockId::WATER);
    assert!(chunk.flags().contains(ChunkFlags::FLUID_SOURCES));
    assert!(!chunk.fluid_source_candidates().is_empty());
    assert!(chunk
        .fluid_source_candidates()
        .contains(&UVec3::new(0, 15, 0)));
}

#[test]
fn chunks_above_the_highest_generated_block_stay_unloaded() {
    let generator = WorldGenerator::procedural(TerrainDimensions::default(), 3);
    assert!(generator
        .generate_chunk(IVec3::new(0, 2, 0), &ChunkSamples::level(0))
        .is_none());
    let legacy = WorldGenerator::legacy_flat(TerrainDimensions::default(), 3);
    assert!(legacy
        .generate_chunk(IVec3::new(0, 1, 0), &ChunkSamples::level(1))
        .is_none());
    assert!(legacy
        .generate_chunk(IVec3::new(10_000, 0, 0), &ChunkSamples::level(1))
        .is_none());
}

#[test]
fn carved_cells_become_air_only_where_caves_exist() {
    let mut samples = ChunkSamples::level(40);
    samples.cells[0].cave_air = true;
    let caves = WorldGenerator::procedural_v2(TerrainDimensions::default(), 5);
    let no_caves = WorldGenerator::procedural_v1(TerrainDimensions::default(), 5);
    let carved = caves.generate_chunk(IVec3::new(0, 0, 0), &samples).unwrap();
    let solid = no_caves.generate_chunk(IVec3::new(0, 0, 0), &samples).unwrap();
    assert_eq!(carved.block(UVec3::new(0, 0, 0)), BlockId::AIR);
    assert_eq!(solid.block(UVec3::new(0, 0, 0)), BlockId::STONE);
}

#[test]
fn trees_are_placed_only_by_the_current_generator() {
    let mut samples = ChunkSamples::level(0);
    let shape = TreeShape::from_identity(42);
    samples
        .trees
        .push(GeneratedTree::new(IVec2::new(8, 8), 0, shape));
    let current = WorldGenerator::procedural(TerrainDimensions::default(), 1);
    let previous = WorldGenerator::procedural_v8(TerrainDimensions::default(), 1);
    let with_tree = current.generate_chunk(IVec3::new(0, 0, 0), &samples).unwrap();
    let without = previous.generate_chunk(IVec3::new(0, 0, 0), &samples).unwrap();
    assert_eq!(with_tree.block(UVec3::new(8, 1, 8)), BlockId::WOOD_LOG);
    assert_eq!(with_tree.skylight(UVec3::new(8, 1, 8)), 0);
    assert_eq!(without.block(UVec3::new(8, 1, 8)), BlockId::AIR);
    let top = shape.trunk_height() as u32;
    assert_eq!(with_tree.block(UVec3::new(8, top, 8)), BlockId::WOOD_LOG);
    assert_eq!(with_tree.block(UVec3::new(9, top, 8)), BlockId::LEAVES);
}

#[test]
fn chunk_pockets_are_deterministic_and_reach_the_chunk() {
    let sampler = UndergroundDepositSampler::new(42);
    let first = sampler.chunk_deposits(IVec3::new(3, -2, -7));
    let second = sampler.chunk_deposits(IVec3::new(3, -2, -7));
    assert_eq!(first, second);
    let mut found = 0;
    for x in -6..6 {
        for z in -6..6 {
            for deposit in sampler.chunk_deposits(IVec3::new(x, -2, z)) {
                assert!(deposit.block == BlockId::GRAVEL || deposit.block == BlockId::CLAY);
                assert!(deposit.overlaps(
                    IVec3::new(x * 16 - 4, -36, z * 16 - 4),
                    IVec3::new(x * 16 + 19, -13, z * 16 + 19)
                ));
                found += 1;
            }
        }
    }
    assert!(found > 0);
}

#[test]
fn spawn_rings_list_rows_then_sides() {
    assert_eq!(spawn_ring(0), vec![IVec2::new(0, 5), IVec2::new(0, 5)]);
    let ring = spawn_ring(1);
    assert_eq!(ring.len(), 8);
    assert_eq!(
        ring,
        vec![
            IVec2::new(-1, 4),
            IVec2::new(-1, 6),
            IVec2::new(0, 4),
            IVec2::new(0, 6),
            IVec2::new(1, 4),
            IVec2::new(1, 6),
            IVec2::new(-1, 5),
            IVec2::new(1, 5),
        ]
    );
    assert_eq!(spawn_ring(3).len(), 24);
}

#[test]
fn only_continental_worlds_search_for_a_spawn() {
    let dimensions = TerrainDimensions::default();
    assert!(WorldGenerator::procedural(dimensions, 1).searches_spawn());
    assert!(WorldGenerator::procedural_v4(dimensions, 1).searches_spawn());
    assert!(!WorldGenerator::procedural_v3(dimensions, 1).searches_spawn());
    assert!(!WorldGenerator::legacy_flat(dimensions, 1).searches_spawn());
}

#[test]
fn a_tree_over_air_keeps_the_grass_and_fluid_flags_true_to_the_blocks() {
    let mut samples = ChunkSamples::level(0);
    samples
        .trees
        .push(GeneratedTree::new(IVec2::new(8, 8), 0, TreeShape::from_identity(42)));
    let generator = WorldGenerator::procedural(TerrainDimensions::default(), 1);
    let chunk = generator.generate_chunk_data(IVec3::new(0, 0, 0), &samples);
    let mut grass = false;
    let mut liquid = false;
    for x in 0..16u32 {
        for y in 0..16u32 {
            for z in 0..16u32 {
                let block = chunk.block(UVec3::new(x, y, z));
                grass |= block == BlockId::GRASS;
                liquid |= block == BlockId::WATER || block == BlockId::LAVA;
            }
        }
    }
    assert_eq!(chunk.flags().contains(ChunkFlags::GRASS_TICKS), grass);
    assert_eq!(chunk.flags().contains(ChunkFlags::FLUID_SOURCES), liquid);
    assert!(chunk.flags().contains(ChunkFlags::LOADED | ChunkFlags::DIRTY));
    assert!(!chunk.flags().contains(ChunkFlags::MESHED));
}

#[test]
fn older_generators_build_no_wood() {
    let mut samples = ChunkSamples::level(0);
    samples
        .trees
        .push(GeneratedTree::new(IVec2::new(8, 8), 0, TreeShape::from_identity(42)));
    let previous = WorldGenerator::procedural_v8(TerrainDimensions::default(), 1);
    let chunk = previous.generate_chunk_data(IVec3::new(0, 0, 0), &samples);
    for x in 0..16u32 {
        for y in 0..16u32 {
            for z in 0..16u32 {
                let block = chunk.block(UVec3::new(x, y, z));
                assert!(block != BlockId::WOOD_LOG && block != BlockId::LEAVES);
            }
        }
    }
}

#[test]
fn spawn_sites_are_grass_above_the_sea_with_air_above() {
    assert_eq!(
        spawn_site(3, -4, 12, Some(BlockId::GRASS), Some(BlockId::AIR)),
        Some(IVec3::new(3, 12, -4))
    );
    assert_eq!(spawn_site(3, -4, 0, Some(BlockId::GRASS), Some(BlockId::AIR)), None);
    assert_eq!(spawn_site(3, -4, 12, Some(BlockId::SAND), Some(BlockId::AIR)), None);
    assert_eq!(spawn_site(3, -4, 12, Some(BlockId::GRASS), Some(BlockId::LEAVES)), None);
    assert_eq!(spawn_site(3, -4, 12, None, Some(BlockId::AIR)), None);
}
