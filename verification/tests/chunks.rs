use survival_realms::blocks::BlockId;
use survival_realms::caves::ravine_skylight;
use survival_realms::chunk::{decode_local, encode_local, Chunk};
use survival_realms::coordinates::{global_from_local, split_global};
use survival_realms::flags::ChunkFlags;
use survival_realms::geometry::{IVec3, UVec3};
use survival_realms::hashing::dirt_depth;

#[test]
fn ravine_skylight_descends_through_all_sixteen_levels() {
    for depth in 0..=15 {
        assert_eq!(ravine_skylight(true, 3, 3 - depth), Some((15 - depth) as u8));
    }
    assert_eq!(ravine_skylight(true, 3, 3 - 16), Some(0));
    assert_eq!(ravine_skylight(false, 3, 3), None);
}

#[test]
fn soil_is_deterministic_and_always_three_or_four_blocks_deep() {
    let depths: Vec<_> = (-32..32)
        .flat_map(|x| (-32..32).map(move |z| dirt_depth(42, x, z)))
        .collect();

    assert!(depths.iter().all(|depth| matches!(depth, 3 | 4)));
    assert!(depths.contains(&3));
    assert!(depths.contains(&4));
    assert_eq!(dirt_depth(42, -7, 19), dirt_depth(42, -7, 19));
}

#[test]
fn local_cells_encode_and_decode_back() {
    for x in 0..16usize {
        for y in 0..16usize {
            for z in 0..16usize {
                let index = encode_local(x, y, z);
                assert_eq!(index as usize, x * 256 + y * 16 + z);
                assert_eq!(decode_local(index), UVec3::new(x as u32, y as u32, z as u32));
            }
        }
    }
}

#[test]
fn block_positions_split_and_join_back() {
    for global in [
        IVec3::new(0, 0, 0),
        IVec3::new(-1, -16, -17),
        IVec3::new(31, 15, -32),
        IVec3::new(-1_000_000, 65_535, 7),
    ] {
        let (chunk, local) = split_global(global);
        assert_eq!(global_from_local(chunk, local), global);
    }
}

#[test]
fn setting_a_block_dirties_and_unmeshes_the_chunk() {
    let mut chunk = Chunk::empty();
    assert!(chunk.is_empty());
    chunk.flags_mut().insert(ChunkFlags::MESHED);
    assert_eq!(chunk.set_block(UVec3::new(1, 2, 3), BlockId::STONE), BlockId::AIR);
    assert!(!chunk.is_empty());
    assert!(chunk.flags().contains(ChunkFlags::DIRTY));
    assert!(!chunk.flags().contains(ChunkFlags::MESHED));
    assert_eq!(chunk.block(UVec3::new(1, 2, 3)), BlockId::STONE);
}

#[test]
fn fluid_candidates_skip_enclosed_liquid() {
    let mut chunk = Chunk::empty();
    for x in 4..7u32 {
        for y in 4..7u32 {
            for z in 4..7u32 {
                chunk.set_block(UVec3::new(x, y, z), BlockId::WATER);
            }
        }
    }
    chunk.rebuild_fluid_source_candidates();
    let candidates = chunk.fluid_source_candidates();
    assert_eq!(candidates.len(), 26);
    assert!(!candidates.contains(&UVec3::new(5, 5, 5)));
    assert!(candidates.contains(&UVec3::new(4, 4, 4)));
}

#[test]
fn clearing_skylight_darkens_every_cell() {
    let mut chunk = Chunk::empty();
    chunk.set_skylight(UVec3::new(0, 0, 0), 15);
    chunk.set_skylight(UVec3::new(15, 15, 15), 9);
    chunk.clear_skylight();
    assert_eq!(chunk.skylight(UVec3::new(0, 0, 0)), 0);
    assert_eq!(chunk.skylight(UVec3::new(15, 15, 15)), 0);
}
