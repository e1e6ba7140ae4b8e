use survival_realms::blocks::BlockId;
use survival_realms::geometry::IVec3;
use survival_realms::trees::TreeShape;

#[test]
fn generated_shapes_stay_inside_the_requested_ranges() {
    for identity in 0..1_000 {
        let shape = TreeShape::from_identity(identity);
        assert!((4..=7).contains(&shape.trunk_height()));
        assert!((1..=2).contains(&shape.canopy_height()));
        assert_eq!(shape.maximum_offset().x - shape.minimum_offset().x + 1, 5);
    }
}

#[test]
fn trunk_wins_over_leaves_in_the_crown() {
    let shape = TreeShape::from_identity(42);
    assert_eq!(
        shape.block_at(IVec3::new(0, shape.trunk_height(), 0)),
        Some(BlockId::WOOD_LOG)
    );
    assert_eq!(
        shape.block_at(IVec3::new(1, shape.trunk_height(), 0)),
        Some(BlockId::LEAVES)
    );
}

#[test]
fn crown_has_a_narrow_base_and_top_around_two_full_middle_layers() {
    let shape = TreeShape::from_identity(42);
    let top = shape.trunk_height();
    let count = |layer: i32| {
        (-2..=2)
            .flat_map(|x| (-2..=2).map(move |z| IVec3::new(x, top + layer, z)))
            .filter(|&offset| shape.is_leaf(offset))
            .count()
    };

    assert!(count(-1) < count(0));
    assert!(count(0) >= 17);
    assert!(count(1) >= 17);
    if shape.canopy_height() == 2 {
        assert!(count(2) < count(1));
    }
}

#[test]
fn nothing_grows_outside_a_tree_box() {
    for identity in [1u64, 7, 42, 1_000_003] {
        let shape = TreeShape::from_identity(identity);
        let minimum = shape.minimum_offset();
        let maximum = shape.maximum_offset();
        for x in -4..=4 {
            for y in -2..=12 {
                for z in -4..=4 {
                    let offset = IVec3::new(x, y, z);
                    let inside = minimum.x <= x
                        && x <= maximum.x
                        && minimum.y <= y
                        && y <= maximum.y
                        && minimum.z <= z
                        && z <= maximum.z;
                    if !inside {
                        assert_eq!(shape.block_at(offset), None);
                    }
                }
            }
        }
    }
}

#[test]
fn a_placed_tree_puts_nothing_far_from_its_ground() {
    let shape = TreeShape::from_identity(42);
    let tree = survival_realms::trees::GeneratedTree::new(survival_realms::geometry::IVec2::new(10, -4), 30, shape);
    assert_eq!(tree.block_at(IVec3::new(10, 31, -4)), Some(BlockId::WOOD_LOG));
    assert_eq!(tree.block_at(IVec3::new(10 + 100_000, 31, -4)), None);
    assert_eq!(tree.block_at(IVec3::new(10, -2_000_000_000, -4)), None);
}

fn open_site(tree: survival_realms::trees::GeneratedTree) -> (Vec<Option<BlockId>>, Vec<i32>, Vec<Option<BlockId>>) {
    let height = (tree.shape().trunk_height() + tree.shape().canopy_height()) as usize;
    let clearance = vec![Some(BlockId::AIR); 9];
    let surfaces = vec![tree.ground().y; 25];
    let blocks = vec![Some(BlockId::AIR); 25 * height];
    (clearance, surfaces, blocks)
}

#[test]
fn a_tree_stands_on_grass_or_dirt_with_open_air_above() {
    let tree = survival_realms::trees::GeneratedTree::new(
        survival_realms::geometry::IVec2::new(0, 0),
        5,
        TreeShape::from_identity(42),
    );
    let (clearance, surfaces, blocks) = open_site(tree);
    assert!(tree.site_is_valid(Some(BlockId::GRASS), &clearance, &surfaces, &blocks));
    assert!(tree.site_is_valid(Some(BlockId::DIRT), &clearance, &surfaces, &blocks));
    assert!(!tree.site_is_valid(Some(BlockId::SAND), &clearance, &surfaces, &blocks));
    let mut blocked = clearance.clone();
    blocked[8] = Some(BlockId::STONE);
    assert!(!tree.site_is_valid(Some(BlockId::GRASS), &blocked, &surfaces, &blocks));
}

#[test]
fn leaves_need_air_only_below_the_surface_or_the_sea() {
    let tree = survival_realms::trees::GeneratedTree::new(
        survival_realms::geometry::IVec2::new(0, 0),
        5,
        TreeShape::from_identity(42),
    );
    let (clearance, surfaces, mut blocks) = open_site(tree);
    let height = (tree.shape().trunk_height() + tree.shape().canopy_height()) as usize;
    // The crown cell one block east of the trunk top: column (x + 1, z) of the box.
    let column = 3 * 5 + 2;
    let top = tree.shape().trunk_height() as usize - 1;
    blocks[column * height + top] = Some(BlockId::STONE);
    // Above a low surface and the sea, a leaf cell may hold anything.
    assert!(tree.site_is_valid(Some(BlockId::GRASS), &clearance, &surfaces, &blocks));
    // Under a high surface it must be air.
    let high = vec![100; 25];
    assert!(!tree.site_is_valid(Some(BlockId::GRASS), &clearance, &high, &blocks));
}
