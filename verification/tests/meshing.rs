use survival_realms::blocks::BlockId;
use survival_realms::chunk::Chunk;
use survival_realms::geometry::{IVec3, UVec3};
use survival_realms::meshing::{
    face_skylight, merge_mask, neighbour_block, quad_corners, quad_indices, quad_uvs, slice_cell,
    texture_face, MaskEntry, MaskQuad, TextureFace,
};
use survival_realms::world::World;

fn stone() -> MaskEntry {
    MaskEntry { block: BlockId::STONE, texture_layer: 3, skylight: 15, liquid: false }
}

fn water() -> MaskEntry {
    MaskEntry { block: BlockId::WATER, texture_layer: 9, skylight: 15, liquid: true }
}

fn empty_mask() -> Vec<Option<MaskEntry>> {
    vec![None; 256]
}

#[test]
fn two_adjacent_faces_merge_into_one_quad() {
    let mut mask = empty_mask();
    mask[0] = Some(stone());
    mask[1] = Some(stone());
    let quads = merge_mask(&mut mask);
    assert_eq!(quads.len(), 1);
    assert_eq!(quads[0], MaskQuad { u: 0, v: 0, width: 2, height: 1, entry: stone() });
    assert!(mask.iter().all(|cell| cell.is_none()));
}

#[test]
fn a_full_slice_becomes_a_single_quad() {
    let mut mask = vec![Some(stone()); 256];
    let quads = merge_mask(&mut mask);
    assert_eq!(quads, vec![MaskQuad { u: 0, v: 0, width: 16, height: 16, entry: stone() }]);
}

#[test]
fn rectangles_grow_down_only_while_the_whole_row_matches() {
    let mut mask = empty_mask();
    for v in 0..3 {
        for u in 2..5 {
            mask[v * 16 + u] = Some(stone());
        }
    }
    mask[3 * 16 + 2] = Some(stone());
    let quads = merge_mask(&mut mask);
    assert_eq!(
        quads,
        vec![
            MaskQuad { u: 2, v: 0, width: 3, height: 3, entry: stone() },
            MaskQuad { u: 2, v: 3, width: 1, height: 1, entry: stone() },
        ]
    );
}

#[test]
fn different_faces_and_liquids_do_not_merge() {
    let mut mask = empty_mask();
    mask[0] = Some(stone());
    mask[1] = Some(MaskEntry { skylight: 4, ..stone() });
    mask[16] = Some(water());
    mask[17] = Some(water());
    let quads = merge_mask(&mut mask);
    assert_eq!(quads.len(), 4);
    assert_eq!(quads[2], MaskQuad { u: 0, v: 1, width: 1, height: 1, entry: water() });
    assert_eq!(quads[3], MaskQuad { u: 1, v: 1, width: 1, height: 1, entry: water() });
}

#[test]
fn slices_map_to_chunk_cells_per_axis() {
    assert_eq!(slice_cell(0, 5, 1, 2), UVec3::new(5, 2, 1));
    assert_eq!(slice_cell(3, 5, 1, 2), UVec3::new(2, 5, 1));
    assert_eq!(slice_cell(4, 5, 1, 2), UVec3::new(1, 2, 5));
}

#[test]
fn quad_geometry_covers_the_merged_rectangle() {
    let quad = MaskQuad { u: 1, v: 2, width: 3, height: 4, entry: stone() };
    assert_eq!(quad_corners(0, 7, quad), vec![(8, 2, 1), (8, 6, 1), (8, 6, 4), (8, 2, 4)]);
    assert_eq!(quad_corners(5, 7, quad), vec![(1, 2, 7), (1, 6, 7), (4, 6, 7), (4, 2, 7)]);
    assert_eq!(quad_uvs(quad), vec![(0, 4), (0, 0), (3, 0), (3, 4)]);
    assert_eq!(quad_indices(8), vec![8, 9, 10, 8, 10, 11]);
}

#[test]
fn faces_pick_top_bottom_or_side_textures() {
    assert_eq!(texture_face(IVec3::new(0, 1, 0)), TextureFace::Top);
    assert_eq!(texture_face(IVec3::new(0, -1, 0)), TextureFace::Bottom);
    assert_eq!(texture_face(IVec3::new(1, 0, 0)), TextureFace::Side);
    assert_eq!(texture_face(IVec3::new(0, 0, -1)), TextureFace::Side);
}

#[test]
fn exposed_border_faces_keep_the_block_skylight() {
    let mut world = World::new();
    world.insert_chunk(IVec3::new(0, 0, 0), Chunk::empty());
    let border = IVec3::new(15, 4, 3);
    world.set_block(border, BlockId::GRASS);
    world.set_skylight(border, 15);
    assert_eq!(face_skylight(&world, border, IVec3::new(16, 4, 3)), 15);
    world.set_skylight(IVec3::new(14, 4, 3), 6);
    assert_eq!(face_skylight(&world, border, IVec3::new(14, 4, 3)), 6);
}

#[test]
fn neighbours_are_read_across_chunk_borders() {
    let mut world = World::new();
    world.insert_chunk(IVec3::new(0, 0, 0), Chunk::empty());
    world.insert_chunk(IVec3::new(1, 0, 0), Chunk::empty());
    world.set_block(IVec3::new(16, 2, 2), BlockId::STONE);
    world.set_block(IVec3::new(14, 2, 2), BlockId::SAND);
    let chunk = world.chunk(IVec3::new(0, 0, 0)).expect("chunk").clone();
    let global = IVec3::new(15, 2, 2);
    let local = UVec3::new(15, 2, 2);
    assert_eq!(
        neighbour_block(&world, &chunk, global, local, IVec3::new(1, 0, 0)),
        BlockId::STONE
    );
    assert_eq!(
        neighbour_block(&world, &chunk, global, local, IVec3::new(-1, 0, 0)),
        BlockId::SAND
    );
    assert_eq!(
        neighbour_block(&world, &chunk, global, local, IVec3::new(0, 1, 0)),
        BlockId::AIR
    );
}

fn stone_chunk_world() -> (World, IVec3) {
    let mut world = World::new();
    let position = IVec3::new(0, 0, 0);
    world.insert_chunk(position, Chunk::empty());
    world.set_block(IVec3::new(4, 4, 4), BlockId::STONE);
    world.set_skylight(IVec3::new(4, 5, 4), 12);
    world.set_block(IVec3::new(5, 4, 4), BlockId::STONE);
    world.set_block(IVec3::new(6, 6, 6), BlockId::WATER);
    world.set_block(IVec3::new(6, 7, 6), BlockId::STONE);
    (world, position)
}

#[test]
fn a_block_shows_its_face_towards_air_with_the_air_skylight() {
    let (world, position) = stone_chunk_world();
    let chunk = world.chunk(position).unwrap();
    let local = UVec3::new(4, 4, 4);
    let entry = survival_realms::meshing::mask_entry(&world, chunk, position, local, 2, false, true, false, 7);
    assert_eq!(
        entry,
        Some(MaskEntry { block: BlockId::STONE, texture_layer: 7, skylight: 12, liquid: false })
    );
}

#[test]
fn hidden_faces_and_undrawn_blocks_show_nothing() {
    let (world, position) = stone_chunk_world();
    let chunk = world.chunk(position).unwrap();
    let local = UVec3::new(4, 4, 4);
    // Towards the stone at +x: same block.
    assert_eq!(survival_realms::meshing::mask_entry(&world, chunk, position, local, 0, false, true, true, 7), None);
    // Towards opaque air at -x (as told by the caller).
    assert_eq!(survival_realms::meshing::mask_entry(&world, chunk, position, local, 1, false, true, true, 7), None);
    // A block that is not drawn.
    assert_eq!(survival_realms::meshing::mask_entry(&world, chunk, position, local, 2, false, false, false, 7), None);
}

#[test]
fn a_lowered_liquid_top_shows_under_an_opaque_block() {
    let (world, position) = stone_chunk_world();
    let chunk = world.chunk(position).unwrap();
    let local = UVec3::new(6, 6, 6);
    let lowered = survival_realms::meshing::mask_entry(&world, chunk, position, local, 2, true, true, true, 9);
    assert_eq!(
        lowered,
        Some(MaskEntry { block: BlockId::WATER, texture_layer: 9, skylight: 0, liquid: true })
    );
    let full = survival_realms::meshing::mask_entry(&world, chunk, position, local, 2, false, true, true, 9);
    assert_eq!(full, None);
}
