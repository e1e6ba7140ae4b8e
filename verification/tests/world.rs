use survival_realms::blocks::BlockId;
use survival_realms::chunk::Chunk;
use survival_realms::coordinates::split_global;
use survival_realms::flags::ChunkFlags;
use survival_realms::generation::{CellSample, ChunkSamples, ColumnSample};
use survival_realms::generator::{WorldGenerator, LEGACY_SURFACE_HEIGHT};
use survival_realms::geometry::{IVec3, UVec3};
use survival_realms::terrain::TerrainDimensions;
use survival_realms::fluid::FluidState;
use survival_realms::world::{persistent_edits, LiquidSurface, World};

fn level_column() -> ColumnSample {
    ColumnSample {
        surface: LEGACY_SURFACE_HEIGHT,
        sediment: None,
        big_lake: None,
        river: None,
        lake: None,
    }
}

fn plain_cell() -> CellSample {
    CellSample {
        cave_air: false,
        in_ravine: false,
        in_chamber: false,
        in_deposits: Vec::new(),
    }
}

#[test]
fn reads_and_writes_across_negative_chunk_boundaries() {
    let mut world = World::new();
    let position = IVec3::new(-1, 17, -16);

    assert_eq!(world.block(position), BlockId::AIR);
    assert_eq!(world.set_block(position, BlockId::STONE), BlockId::AIR);
    assert_eq!(world.block(position), BlockId::STONE);

    let (chunk_position, local) = split_global(position);
    assert_eq!(chunk_position, IVec3::new(-1, 1, -1));
    assert_eq!(local, UVec3::new(15, 1, 0));
}

#[test]
fn editing_a_chunk_border_marks_the_neighbour_dirty() {
    let mut world = World::new();
    world.insert_chunk(IVec3::new(0, 0, 0), Chunk::empty());
    world.insert_chunk(IVec3::new(1, 0, 0), Chunk::empty());

    world.set_block(IVec3::new(15, 0, 0), BlockId::STONE);

    assert!(world
        .chunk(IVec3::new(1, 0, 0))
        .expect("neighbour chunk")
        .flags()
        .contains(ChunkFlags::DIRTY));
}

#[test]
fn player_edits_survive_chunk_unload_and_regeneration() {
    let generator = WorldGenerator::legacy_flat(TerrainDimensions::default(), 0);
    let samples = ChunkSamples::level(LEGACY_SURFACE_HEIGHT);
    let placed_position = IVec3::new(2, 2, 2);
    let broken_position = IVec3::new(3, 1, 2);
    let chunk_position = split_global(placed_position).0;
    let generated = generator.generate_chunk(chunk_position, &samples).unwrap();
    let mut world = World::new();
    world.insert_chunk(chunk_position, generated);

    assert_eq!(
        world.edit_block(placed_position, BlockId::COBBLESTONE),
        Some(BlockId::AIR)
    );
    assert_eq!(
        world.edit_block(broken_position, BlockId::AIR),
        Some(BlockId::GRASS)
    );
    assert_eq!(world.edited_block_count(), 2);
    world.remove_chunk(chunk_position);
    world.insert_chunk(
        chunk_position,
        generator.generate_chunk(chunk_position, &samples).unwrap(),
    );

    assert_eq!(world.block(placed_position), BlockId::COBBLESTONE);
    assert_eq!(world.block(broken_position), BlockId::AIR);
}

#[test]
fn placing_a_source_over_a_current_records_a_persistent_edit() {
    let generator = WorldGenerator::legacy_flat(TerrainDimensions::default(), 0);
    let samples = ChunkSamples::level(LEGACY_SURFACE_HEIGHT);
    let position = IVec3::new(2, 5, 2);
    let chunk_position = split_global(position).0;
    let mut world = World::new();
    world.insert_chunk(
        chunk_position,
        generator.generate_chunk(chunk_position, &samples).unwrap(),
    );
    world.set_simulated_block(position, BlockId::WATER);

    assert_eq!(
        world.edit_block(position, BlockId::WATER),
        Some(BlockId::WATER)
    );
    let recorded = world.recorded_edits();
    let generated_blocks: Vec<Option<BlockId>> = recorded
        .iter()
        .map(|(global, _)| generator.base_block(*global, level_column(), &plain_cell(), None, &Vec::new()))
        .collect();
    assert!(persistent_edits(&recorded, &generated_blocks).contains(&(position, BlockId::WATER)));
}

#[test]
fn edits_matching_the_generated_block_are_not_saved() {
    let generator = WorldGenerator::legacy_flat(TerrainDimensions::default(), 0);
    let samples = ChunkSamples::level(LEGACY_SURFACE_HEIGHT);
    let mut world = World::new();
    world.insert_chunk(IVec3::new(0, 0, 0), generator.generate_chunk(IVec3::new(0, 0, 0), &samples).unwrap());
    world.edit_block(IVec3::new(4, 1, 4), BlockId::STONE);
    world.edit_block(IVec3::new(4, 1, 4), BlockId::GRASS);
    let recorded = world.recorded_edits();
    assert_eq!(recorded, vec![(IVec3::new(4, 1, 4), BlockId::GRASS)]);
    let generated_blocks: Vec<Option<BlockId>> = recorded
        .iter()
        .map(|(global, _)| generator.base_block(*global, level_column(), &plain_cell(), None, &Vec::new()))
        .collect();
    assert!(persistent_edits(&recorded, &generated_blocks).is_empty());
}

#[test]
fn removing_several_chunks_counts_only_loaded_ones() {
    let mut world = World::new();
    world.insert_chunk(IVec3::new(0, 0, 0), Chunk::empty());
    world.insert_chunk(IVec3::new(1, 0, 0), Chunk::empty());
    world.insert_chunk(IVec3::new(2, 0, 0), Chunk::empty());
    let removed = world.remove_chunks(&vec![
        IVec3::new(0, 0, 0),
        IVec3::new(0, 0, 0),
        IVec3::new(5, 5, 5),
        IVec3::new(2, 0, 0),
    ]);
    assert_eq!(removed, 2);
    assert_eq!(world.chunk_positions(), vec![IVec3::new(1, 0, 0)]);
    assert_eq!(
        world.take_removed_chunks(),
        vec![IVec3::new(0, 0, 0), IVec3::new(2, 0, 0)]
    );
    assert!(world
        .chunk(IVec3::new(1, 0, 0))
        .unwrap()
        .flags()
        .contains(ChunkFlags::DIRTY));
}

#[test]
fn unloaded_world_reads_air_and_darkness() {
    let world = World::new();
    assert_eq!(world.block(IVec3::new(100, -40, 7)), BlockId::AIR);
    assert_eq!(world.skylight(IVec3::new(100, -40, 7)), 0);
    assert_eq!(world.edited_block_count(), 0);
}

#[test]
fn lighting_changes_queue_grass_once_and_dirty_neighbours() {
    let mut world = World::new();
    for x in [0, 1, 5] {
        world.insert_chunk(IVec3::new(x, 0, 0), Chunk::empty());
    }
    world.take_dirty_chunks();
    let far_flags = world.chunk(IVec3::new(5, 0, 0)).expect("far chunk").flags();

    world.mark_lighting_chunks_dirty(&vec![IVec3::new(0, 0, 0), IVec3::new(0, 0, 0)]);

    assert_eq!(world.take_grass_light_chunks(), vec![IVec3::new(0, 0, 0)]);
    for x in [0, 1] {
        assert!(world
            .chunk(IVec3::new(x, 0, 0))
            .expect("lit chunk")
            .flags()
            .contains(ChunkFlags::DIRTY));
    }
    assert_eq!(
        world.chunk(IVec3::new(5, 0, 0)).expect("far chunk").flags(),
        far_flags
    );

    world.mark_lighting_chunks_dirty(&vec![IVec3::new(0, 0, 0)]);
    assert_eq!(world.take_grass_light_chunks(), vec![IVec3::new(0, 0, 0)]);
}

#[test]
fn liquid_surfaces_follow_flow_state_and_the_block_above() {
    let mut world = World::new();
    world.insert_chunk(IVec3::new(0, 0, 0), Chunk::empty());
    let water = IVec3::new(3, 3, 3);
    assert_eq!(world.liquid_surface(water), None);
    world.set_block(water, BlockId::WATER);
    assert_eq!(world.liquid_surface(water), Some(LiquidSurface::Source));
    world.set_fluid_state(water, FluidState::new(3, false));
    assert_eq!(
        world.liquid_surface(water),
        Some(LiquidSurface::Flowing { remaining: 5, maximum: 8 })
    );
    world.set_block(IVec3::new(3, 4, 3), BlockId::WATER);
    assert_eq!(world.liquid_surface(water), Some(LiquidSurface::Full));
}
