use survival_realms::blocks::BlockId;
use survival_realms::generation::ChunkSamples;
use survival_realms::generator::WorldGenerator;
use survival_realms::geometry::IVec3;
use survival_realms::streamer::ChunkStreamer;
use survival_realms::streaming::{RenderDistance, StreamingUpdate};
use survival_realms::terrain::TerrainDimensions;
use survival_realms::world::World;

/// Generates the waiting chunks right away, over level terrain at sea level.
fn process_pending_blocking(
    streamer: &mut ChunkStreamer,
    world: &mut World,
    generator: WorldGenerator,
    budget: usize,
) -> StreamingUpdate {
    let samples = ChunkSamples::level(0);
    let positions = streamer.take_pending_positions(world, budget);
    let mut loaded = 0;
    for position in positions {
        let chunk = generator.generate_chunk(position, &samples);
        if streamer.store_generated(world, position, chunk) {
            loaded += 1;
        }
    }
    StreamingUpdate::loaded(loaded)
}

#[test]
fn spreads_chunk_loading_across_multiple_budgets() {
    let generator = WorldGenerator::procedural(TerrainDimensions::new(32, 32, 8, 8), 0);
    let mut world = World::new();
    let mut streamer = ChunkStreamer::new(RenderDistance::new(1), 1);

    let center = IVec3::new(0, -2, 0);
    let scheduled = streamer.update_center(center, &mut world, generator);
    assert_eq!(scheduled.scheduled_count(), 7);
    assert_eq!(world.chunk_positions().len(), 0);

    let first_batch = process_pending_blocking(&mut streamer, &mut world, generator, 4);
    assert_eq!(first_batch.loaded_count(), 4);
    assert_eq!(world.chunk_positions().len(), 4);
    assert_eq!(streamer.pending_count(), 3);
}

#[test]
fn unloads_old_chunks_and_prioritizes_new_nearby_chunks() {
    let generator = WorldGenerator::procedural(TerrainDimensions::new(32, 32, 8, 8), 0);
    let mut world = World::new();
    let mut streamer = ChunkStreamer::new(RenderDistance::new(1), 1);

    let center = IVec3::new(0, -2, 0);
    streamer.update_center(center, &mut world, generator);
    process_pending_blocking(&mut streamer, &mut world, generator, usize::MAX);
    let moved = streamer.update_center(IVec3::new(1, -2, 0), &mut world, generator);

    assert_eq!(moved.scheduled_count(), 5);
    assert_eq!(moved.unloaded_count(), 5);
    assert_eq!(world.chunk_positions().len(), 2);

    process_pending_blocking(&mut streamer, &mut world, generator, usize::MAX);
    assert_eq!(world.chunk_positions().len(), 7);
}

#[test]
fn does_no_work_until_the_player_changes_chunks() {
    let generator = WorldGenerator::default();
    let mut world = World::new();
    let mut streamer = ChunkStreamer::new(RenderDistance::default(), 1);

    let center = IVec3::new(0, -2, 0);
    streamer.update_center(center, &mut world, generator);
    let unchanged = streamer.update_center(center, &mut world, generator);

    assert_eq!(unchanged, StreamingUpdate::default());
}

#[test]
fn changing_render_distance_rebuilds_the_desired_radius() {
    let generator = WorldGenerator::default();
    let mut world = World::new();
    let mut streamer = ChunkStreamer::new(RenderDistance::new(1), 1);
    streamer.update_center(IVec3::new(0, 0, 0), &mut world, generator);
    process_pending_blocking(&mut streamer, &mut world, generator, usize::MAX);

    streamer.set_render_distance(RenderDistance::new(2));
    let expanded = streamer.update_center(IVec3::new(0, 0, 0), &mut world, generator);

    assert_eq!(streamer.render_distance(), RenderDistance::new(2));
    assert!(expanded.scheduled_count() > 0);
    assert_eq!(expanded.unloaded_count(), 0);
}

#[test]
fn caches_empty_sky_chunks_without_making_them_resident() {
    let generator = WorldGenerator::procedural(TerrainDimensions::new(32, 32, 8, 8), 17);
    let mut world = World::new();
    let mut streamer = ChunkStreamer::new(RenderDistance::new(1), 1);

    let scheduled = streamer.update_center(IVec3::new(0, 3, 0), &mut world, generator);
    let loaded = process_pending_blocking(&mut streamer, &mut world, generator, usize::MAX);

    assert_eq!(scheduled.scheduled_count(), 7);
    assert_eq!(loaded.loaded_count(), 0);
    assert_eq!(world.chunk_positions().len(), 0);
    assert_eq!(streamer.known_empty_count(), 7);
    assert_eq!(streamer.pending_count(), 0);
}

#[test]
fn saved_builds_restore_inside_otherwise_empty_sky_chunks() {
    let generator = WorldGenerator::procedural(TerrainDimensions::new(32, 32, 8, 8), 17);
    let mut world = World::new();
    let mut streamer = ChunkStreamer::new(RenderDistance::new(1), 1);
    let block_position = IVec3::new(1, 49, 1);
    world.restore_edit(block_position, BlockId::WOOD);

    streamer.update_center(IVec3::new(0, 3, 0), &mut world, generator);
    let loaded = process_pending_blocking(&mut streamer, &mut world, generator, usize::MAX);

    assert_eq!(loaded.loaded_count(), 1);
    assert_eq!(world.block(block_position), BlockId::WOOD);
    assert_eq!(world.chunk_positions().len(), 1);
    assert_eq!(streamer.known_empty_count(), 6);
}

#[test]
fn waiting_chunks_are_scheduled_nearest_first() {
    let generator = WorldGenerator::procedural(TerrainDimensions::new(32, 32, 8, 8), 0);
    let mut world = World::new();
    let mut streamer = ChunkStreamer::new(RenderDistance::new(2), 1);
    let center = IVec3::new(0, -2, 0);
    streamer.update_center(center, &mut world, generator);
    let order = streamer.take_pending_positions(&world, usize::MAX);
    assert_eq!(order[0], center);
    let distances: Vec<i32> = order
        .iter()
        .map(|p| (p.x - center.x).pow(2) + (p.y - center.y).pow(2) + (p.z - center.z).pow(2))
        .collect();
    assert!(distances.windows(2).all(|pair| pair[0] <= pair[1]));
    assert!(distances.iter().all(|&d| d <= 4));
}

#[test]
fn background_jobs_respect_twice_the_thread_count() {
    let generator = WorldGenerator::procedural(TerrainDimensions::new(32, 32, 8, 8), 0);
    let mut world = World::new();
    let mut streamer = ChunkStreamer::new(RenderDistance::new(1), 16);
    streamer.update_center(IVec3::new(0, -2, 0), &mut world, generator);
    let jobs = streamer.next_generation_jobs(&world);
    assert_eq!(jobs.len(), 4);
    assert_eq!(streamer.pending_count(), 7);
    let samples = ChunkSamples::level(0);
    for position in jobs {
        let chunk = generator.generate_chunk(position, &samples);
        streamer.receive_generated(&world, generator, position, chunk);
    }
    assert_eq!(streamer.load_ready(&mut world, generator, 3), 3);
    assert_eq!(world.chunk_positions().len(), 3);
    assert_eq!(streamer.pending_count(), 4);
}

#[test]
fn loaded_chunks_hold_the_generated_blocks_with_recorded_edits() {
    let generator = WorldGenerator::procedural(TerrainDimensions::new(32, 32, 8, 8), 0);
    let mut world = World::new();
    let mut streamer = ChunkStreamer::new(RenderDistance::new(0), 16);
    let center = IVec3::new(0, -2, 0);
    streamer.update_center(center, &mut world, generator);
    let jobs = streamer.next_generation_jobs(&world);
    assert_eq!(jobs, vec![center]);
    let samples = ChunkSamples::level(0);
    let generated = generator.generate_chunk(center, &samples).unwrap();
    streamer.receive_generated(&world, generator, center, generator.generate_chunk(center, &samples));
    assert_eq!(streamer.load_ready(&mut world, generator, 1), 1);
    for (x, y, z) in [(0u32, 0u32, 0u32), (3, 15, 7), (15, 8, 2)] {
        let local = survival_realms::geometry::UVec3::new(x, y, z);
        let global = survival_realms::coordinates::global_from_local(center, local);
        assert_eq!(world.block(global), generated.block(local));
        assert_eq!(world.skylight(global), generated.skylight(local));
    }
}

#[test]
fn an_empty_result_with_edits_loads_air_with_the_edits() {
    let generator = WorldGenerator::procedural(TerrainDimensions::new(32, 32, 8, 8), 0);
    let mut world = World::new();
    let mut streamer = ChunkStreamer::new(RenderDistance::new(0), 1);
    let position = IVec3::new(0, 3, 0);
    world.insert_chunk(position, survival_realms::chunk::Chunk::empty());
    let edited = IVec3::new(2, 50, 3);
    assert_eq!(world.edit_block(edited, BlockId::COBBLESTONE), Some(BlockId::AIR));
    world.remove_chunk(position);
    assert!(streamer.store_generated(&mut world, position, None));
    assert_eq!(world.block(edited), BlockId::COBBLESTONE);
    assert_eq!(world.block(IVec3::new(2, 51, 3)), BlockId::AIR);
    assert_eq!(world.skylight(IVec3::new(2, 51, 3)), 0);
}

#[test]
fn an_empty_result_without_edits_loads_nothing() {
    let mut world = World::new();
    let mut streamer = ChunkStreamer::new(RenderDistance::new(0), 1);
    let position = IVec3::new(0, 3, 0);
    assert!(!streamer.store_generated(&mut world, position, None));
    assert_eq!(world.chunk_positions().len(), 0);
}
