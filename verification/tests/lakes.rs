use survival_realms::blocks::BlockId;
use survival_realms::lakes::{height_extent, LakeColumn, LakeKind, LakeSampler};

#[test]
fn lake_layout_is_deterministic_for_a_seed() {
    let sampler = LakeSampler::new(42);
    for position in [(-77, 31), (19, 94), (215, -108)] {
        for kind in LakeKind::all() {
            let spacing = kind.spacing();
            let (_, maximum_radius) = kind.radius_range();
            let search_radius = maximum_radius + 2;
            let minimum_cell_x = (position.0 - search_radius).div_euclid(spacing);
            let maximum_cell_x = (position.0 + search_radius).div_euclid(spacing);
            let minimum_cell_z = (position.1 - search_radius).div_euclid(spacing);
            let maximum_cell_z = (position.1 + search_radius).div_euclid(spacing);
            for cell_x in minimum_cell_x..=maximum_cell_x {
                for cell_z in minimum_cell_z..=maximum_cell_z {
                    let first = sampler.site(kind, cell_x, cell_z);
                    let second = sampler.site(kind, cell_x, cell_z);
                    assert_eq!(first, second, "lake layout changed at {position:?}");
                }
            }
        }
    }
}

#[test]
fn lava_basins_line_their_floor_with_two_stone_layers() {
    let column = LakeColumn::Basin {
        kind: LakeKind::Lava,
        level: 4,
        bottom: 2,
        terrain_surface: 6,
    };
    assert_eq!(column.block(6, BlockId::GRASS), BlockId::AIR);
    assert_eq!(column.block(5, BlockId::DIRT), BlockId::AIR);
    assert_eq!(column.block(4, BlockId::DIRT), BlockId::LAVA);
    assert_eq!(column.block(3, BlockId::DIRT), BlockId::LAVA);
    assert_eq!(column.block(2, BlockId::DIRT), BlockId::STONE);
    assert_eq!(column.block(1, BlockId::DIRT), BlockId::STONE);
    assert_eq!(column.block(0, BlockId::DIRT), BlockId::DIRT);
    assert_eq!(column.water_bottom(), None);
    assert_eq!(column.direct_sky_floor(6), 3);
}

#[test]
fn lava_rims_turn_the_top_three_blocks_to_stone() {
    let column = LakeColumn::LavaRim { terrain_surface: 9 };
    assert_eq!(column.block(9, BlockId::GRASS), BlockId::STONE);
    assert_eq!(column.block(7, BlockId::DIRT), BlockId::STONE);
    assert_eq!(column.block(6, BlockId::DIRT), BlockId::DIRT);
    assert_eq!(column.block(10, BlockId::AIR), BlockId::AIR);
}

#[test]
fn steep_sites_are_refused_and_flat_ones_become_lakes() {
    let sampler = LakeSampler::continental(42);
    let site = (0..200)
        .flat_map(|x| (0..200).map(move |z| (x, z)))
        .find_map(|(x, z)| sampler.site(LakeKind::Water, x, z))
        .expect("some cell rolls a lake");
    let flat = vec![12; 9];
    let lake = sampler.accept(site, &flat).expect("flat land keeps the lake");
    assert_eq!(lake.level, 11);
    assert_eq!(lake.center, site.center);
    let mut steep = vec![12; 9];
    steep[4] = 40;
    assert_eq!(sampler.accept(site, &steep), None);
    let shore = vec![1; 9];
    assert_eq!(sampler.accept(site, &shore), None);
    assert_eq!(height_extent(&vec![3, -2, 7]), (-2, 7));
}
