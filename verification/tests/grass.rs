use std::collections::HashSet;
use std::time::Duration;

use survival_realms::blocks::BlockId;
use survival_realms::chunk::Chunk;
use survival_realms::geometry::IVec3;
use survival_realms::grass::{
    spread_direction, spread_directions, GrassSystem, MAX_DECAY_SECONDS, RANDOM_TICK_INTERVAL_NANOS,
};
use survival_realms::world::World;

fn secs(n: u64) -> u128 {
    Duration::from_secs(n).as_nanos()
}

fn up(p: IVec3) -> IVec3 {
    IVec3::new(p.x, p.y + 1, p.z)
}

fn plus(p: IVec3, d: IVec3) -> IVec3 {
    IVec3::new(p.x + d.x, p.y + d.y, p.z + d.z)
}

fn lit_grass_world() -> (World, IVec3) {
    let mut world = World::new();
    world.insert_chunk(IVec3::new(0, 0, 0), Chunk::empty());
    let grass = IVec3::new(8, 8, 8);
    world.set_block(grass, BlockId::GRASS);
    world.set_skylight(grass, 15);
    (world, grass)
}

fn place_dirt_in_next_random_direction(world: &mut World, grass: IVec3, seed: u64) -> IVec3 {
    let mut predictor = GrassSystem::default();
    predictor.reset(seed);
    let target = plus(grass, spread_direction(predictor.random_index(24)));
    world.set_block(target, BlockId::DIRT);
    world.set_skylight(target, 15);
    target
}

#[test]
fn eligible_grass_spreads_only_after_fifty_five_seconds() {
    let (mut world, grass) = lit_grass_world();
    let mut system = GrassSystem::default();
    system.reset(7);
    let target = place_dirt_in_next_random_direction(&mut world, grass, 7);
    system.register_chunk(&mut world, IVec3::new(0, 0, 0));

    assert_eq!(system.update(secs(54), &mut world), 0);
    assert_eq!(system.update(secs(1), &mut world), 1);
    assert_eq!(world.block(target), BlockId::GRASS);
}

#[test]
fn timer_starts_when_conditions_become_valid_not_before() {
    let (mut world, grass) = lit_grass_world();
    let mut system = GrassSystem::default();
    system.reset(9);
    system.register_chunk(&mut world, IVec3::new(0, 0, 0));
    system.update(secs(50), &mut world);

    let target = place_dirt_in_next_random_direction(&mut world, grass, 9);
    system.on_block_changed(&mut world, target);
    assert_eq!(system.update(secs(5), &mut world), 0);
    assert_eq!(system.update(secs(50), &mut world), 1);
}

#[test]
fn random_tick_can_miss_when_only_one_direction_contains_dirt() {
    let (mut world, grass) = lit_grass_world();
    let mut system = GrassSystem::default();
    system.reset(13);
    let missed = system.random_index(24);
    system.reset(13);
    let target = plus(grass, spread_direction((missed + 1) % 24));
    world.set_block(target, BlockId::DIRT);
    world.set_skylight(target, 15);
    system.register_chunk(&mut world, IVec3::new(0, 0, 0));

    assert_eq!(system.update(RANDOM_TICK_INTERVAL_NANOS, &mut world), 0);
    assert_eq!(world.block(target), BlockId::DIRT);
}

#[test]
fn losing_eligibility_resets_the_full_timer() {
    let (mut world, grass) = lit_grass_world();
    let mut system = GrassSystem::default();
    system.reset(21);
    let target = place_dirt_in_next_random_direction(&mut world, grass, 21);
    system.register_chunk(&mut world, IVec3::new(0, 0, 0));
    system.update(secs(50), &mut world);

    let cover = up(target);
    world.set_block(cover, BlockId::STONE);
    system.on_block_changed(&mut world, cover);
    system.update(secs(10), &mut world);
    world.set_block(cover, BlockId::AIR);
    system.on_block_changed(&mut world, cover);

    assert_eq!(system.update(secs(54), &mut world), 0);
    assert_eq!(world.block(target), BlockId::DIRT);
    assert_eq!(system.update(secs(1), &mut world), 1);
    assert_eq!(world.block(target), BlockId::GRASS);
}

#[test]
fn covered_or_unlit_grass_decays_after_random_delay() {
    for covered in [false, true] {
        let (mut world, grass) = lit_grass_world();
        let mut system = GrassSystem::default();
        system.reset(11);
        system.register_chunk(&mut world, IVec3::new(0, 0, 0));
        if covered {
            world.set_block(up(grass), BlockId::STONE);
            system.on_block_changed(&mut world, up(grass));
        } else {
            world.set_skylight(grass, 0);
            system.on_lighting_changed(&mut world, IVec3::new(0, 0, 0));
        }
        assert_eq!(world.block(grass), BlockId::GRASS);
        system.update(secs(7), &mut world);
        assert_eq!(world.block(grass), BlockId::GRASS);
        system.update(secs(9), &mut world);
        assert_eq!(world.block(grass), BlockId::DIRT);
    }
}

#[test]
fn grass_created_by_spreading_inherits_grass_behaviour() {
    let (mut world, grass) = lit_grass_world();
    let mut system = GrassSystem::default();
    system.reset(31);
    let target = place_dirt_in_next_random_direction(&mut world, grass, 31);
    system.register_chunk(&mut world, IVec3::new(0, 0, 0));
    system.update(RANDOM_TICK_INTERVAL_NANOS, &mut world);

    assert_eq!(world.block(target), BlockId::GRASS);
    assert!(system.is_watched(target));

    world.set_block(up(target), BlockId::STONE);
    system.on_block_changed(&mut world, up(target));
    system.update(secs(MAX_DECAY_SECONDS), &mut world);
    assert_eq!(world.block(target), BlockId::DIRT);
}

#[test]
fn decay_is_cancelled_when_conditions_recover() {
    let (mut world, grass) = lit_grass_world();
    let mut system = GrassSystem::default();
    system.reset(41);
    system.register_chunk(&mut world, IVec3::new(0, 0, 0));

    let cover = up(grass);
    world.set_block(cover, BlockId::STONE);
    system.on_block_changed(&mut world, cover);
    system.update(secs(7), &mut world);
    world.set_block(cover, BlockId::AIR);
    system.on_block_changed(&mut world, cover);
    system.update(secs(MAX_DECAY_SECONDS), &mut world);

    assert_eq!(world.block(grass), BlockId::GRASS);
}

#[test]
fn transparent_liquids_do_not_kill_grass_below_them() {
    let (mut world, grass) = lit_grass_world();
    let system = GrassSystem::default();

    for liquid in [BlockId::WATER, BlockId::LAVA] {
        world.set_block(up(grass), liquid);
        assert!(!system.must_decay(&world, grass));
    }
}

#[test]
fn spread_uses_every_neighbour_except_the_vertical_axis() {
    let unique: HashSet<IVec3> = spread_directions().into_iter().collect();
    assert_eq!(unique.len(), 24);
    assert!(!unique.contains(&IVec3::new(0, 0, 0)));
    assert!(!unique.contains(&IVec3::new(0, 1, 0)));
    assert!(!unique.contains(&IVec3::new(0, -1, 0)));
    assert!(unique
        .iter()
        .all(|d| [d.x, d.y, d.z].into_iter().all(|axis| (-1..=1).contains(&axis))));
}

#[test]
fn spread_directions_follow_the_layer_order() {
    let directions = spread_directions();
    assert_eq!(directions[0], IVec3::new(-1, -1, -1));
    assert_eq!(directions[4], IVec3::new(0, -1, 1));
    assert_eq!(directions[12], IVec3::new(0, 0, 1));
    assert_eq!(directions[23], IVec3::new(1, 1, 1));
}

#[test]
fn nothing_due_changes_nothing() {
    let (mut world, grass) = lit_grass_world();
    let mut system = GrassSystem::default();
    system.reset(5);
    system.register_chunk(&mut world, IVec3::new(0, 0, 0));
    assert!(system.is_watched(grass));
    assert_eq!(system.update(secs(30), &mut world), 0);
    assert_eq!(world.block(grass), BlockId::GRASS);
}

#[test]
fn unloading_a_chunk_forgets_its_grass() {
    let (mut world, grass) = lit_grass_world();
    let mut system = GrassSystem::default();
    system.reset(3);
    system.register_chunk(&mut world, IVec3::new(0, 0, 0));
    assert!(system.is_watched(grass));
    system.unload_chunk(IVec3::new(0, 0, 0));
    assert!(!system.is_watched(grass));
}

#[test]
fn random_index_follows_xorshift() {
    let mut system = GrassSystem::default();
    system.reset(1);
    let mut value: u64 = 1;
    value ^= value << 13;
    value ^= value >> 7;
    value ^= value << 17;
    assert_eq!(system.random_index(1000), (value as usize) % 1000);
}
