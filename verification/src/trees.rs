use vstd::prelude::*;

use crate::blocks::BlockId;
use crate::geometry::{IVec2, IVec3};
use crate::terrain::SEA_LEVEL;

verus! {

pub const MIN_TRUNK_HEIGHT: i32 = 4;
pub const MAX_TRUNK_HEIGHT: i32 = 7;
pub const MAX_CANOPY_HEIGHT: i32 = 2;
pub const CANOPY_RADIUS: i32 = 2;
pub const CLEARANCE_HEIGHT: i32 = 9;

/// The shape of a generated tree: trunk height, canopy height above the trunk
/// and the seed that varies the outline of its crown.
#[derive(Clone, Copy, Debug, PartialEq, Eq, Structural)]
pub struct TreeShape {
    trunk_height: i32,
    canopy_height: i32,
    silhouette_seed: u64,
}

/// Offsets of a tree's cells are small.
pub open spec fn offset_in_range(offset: IVec3) -> bool {
    &&& -0x4000 <= offset.x <= 0x4000
    &&& -0x4000 <= offset.y <= 0x4000
    &&& -0x4000 <= offset.z <= 0x4000
}

/// Seeded choice of the crown cells to drop.
pub open spec fn crown_hash(seed: u64, offset: IVec3) -> u64 {
    seed ^ (offset.x as u32 as u64).wrapping_mul(0x9E37_79B1u64) ^ (offset.z as u32
        as u64).wrapping_mul(0x85EB_CA77u64) ^ (offset.y as u32 as u64).wrapping_mul(
        0xC2B2_AE3Du64,
    )
}

pub open spec fn abs_int(value: int) -> int {
    if value < 0 {
        -value
    } else {
        value
    }
}

/// Radius of a crown layer, counted from the trunk top, or none outside the crown.
pub open spec fn layer_radius(canopy_height: i32, layer: int) -> Option<int> {
    if layer == -1 {
        Some(1)
    } else if layer == 0 {
        Some(CANOPY_RADIUS as int)
    } else if layer == 1 && canopy_height == 1 {
        Some(1)
    } else if layer == 1 {
        Some(CANOPY_RADIUS as int)
    } else if layer == 2 {
        Some(1)
    } else {
        None
    }
}

impl TreeShape {
    pub closed spec fn spec_trunk_height(self) -> i32 {
        self.trunk_height
    }

    pub closed spec fn spec_canopy_height(self) -> i32 {
        self.canopy_height
    }

    pub closed spec fn spec_silhouette_seed(self) -> u64 {
        self.silhouette_seed
    }

    /// Shapes stay within their ranges: trunks of four to seven blocks and
    /// canopies one or two blocks above the trunk.
    pub open spec fn wf(self) -> bool {
        &&& MIN_TRUNK_HEIGHT <= self.spec_trunk_height() <= MAX_TRUNK_HEIGHT
        &&& 1 <= self.spec_canopy_height() <= MAX_CANOPY_HEIGHT
    }

    /// A crown cell holds leaves: the crown has a narrow 3x3 layer under the
    /// trunk top, a rounded 5x5 layer at the trunk top, a second rounded layer
    /// for two-block canopies (a 3x3 one otherwise) and a 3x3 cap; the 3x3
    /// layers lose corners and the rounded ones lose rim cells by a seeded hash.
    pub open spec fn spec_is_leaf(self, offset: IVec3) -> bool {
        let layer = offset.y - self.spec_trunk_height();
        if layer < -1 || layer > self.spec_canopy_height() {
            false
        } else {
            match layer_radius(self.spec_canopy_height(), layer) {
                None => false,
                Some(radius) => {
                    if abs_int(offset.x as int) > radius || abs_int(offset.z as int) > radius {
                        false
                    } else if radius == 1 {
                        let corner = abs_int(offset.x as int) == 1 && abs_int(offset.z as int) == 1;
                        !corner || crown_hash(self.spec_silhouette_seed(), offset) % 2 != 0
                    } else {
                        let distance_squared = offset.x * offset.x + offset.z * offset.z;
                        if distance_squared > 5 {
                            false
                        } else {
                            distance_squared != 5 || crown_hash(self.spec_silhouette_seed(), offset)
                                % 5 != 0
                        }
                    }
                },
            }
        }
    }

    /// The trunk occupies the column above the ground up to the trunk height.
    pub open spec fn spec_is_trunk(self, offset: IVec3) -> bool {
        offset.x == 0 && offset.z == 0 && 1 <= offset.y <= self.spec_trunk_height()
    }

    /// Trunk cells hold logs, other crown cells leaves; the trunk wins where both meet.
    pub open spec fn spec_block_at(self, offset: IVec3) -> Option<BlockId> {
        if self.spec_is_trunk(offset) {
            Some(BlockId::WOOD_LOG)
        } else if self.spec_is_leaf(offset) {
            Some(BlockId::LEAVES)
        } else {
            None
        }
    }

    /// A shape picked by the bits of a seeded identity: the trunk height from
    /// its remainder, a two-block canopy for one in four identities, and the
    /// crown seed from its high bits.
    pub fn from_identity(identity: u64) -> (r: TreeShape)
        ensures
            r.wf(),
            r.spec_trunk_height() == MIN_TRUNK_HEIGHT + identity % 4,
            r.spec_canopy_height() == (if (identity >> 16u64) % 4 == 0 {
                MAX_CANOPY_HEIGHT
            } else {
                1
            }),
            r.spec_silhouette_seed() == identity >> 24u64,
    {
        let span = (MAX_TRUNK_HEIGHT - MIN_TRUNK_HEIGHT + 1) as u64;
        TreeShape {
            trunk_height: MIN_TRUNK_HEIGHT + (identity % span) as i32,
            canopy_height: if (identity >> 16) % 4 == 0 {
                MAX_CANOPY_HEIGHT
            } else {
                1
            },
            silhouette_seed: identity >> 24,
        }
    }

    pub fn trunk_height(self) -> (r: i32)
        ensures
            r == self.spec_trunk_height(),
    {
        self.trunk_height
    }

    pub fn canopy_height(self) -> (r: i32)
        ensures
            r == self.spec_canopy_height(),
    {
        self.canopy_height
    }

    /// The lowest corner of the shape's bounding box, relative to the ground block.
    pub fn minimum_offset(self) -> (r: IVec3)
        ensures
            r == (IVec3 { x: -2i32, y: 1, z: -2i32 }),
    {
        IVec3 { x: -CANOPY_RADIUS, y: 1, z: -CANOPY_RADIUS }
    }

    /// The highest corner of the shape's bounding box, relative to the ground block.
    pub fn maximum_offset(self) -> (r: IVec3)
        requires
            self.wf(),
        ensures
            r == (IVec3 {
                x: CANOPY_RADIUS,
                y: (self.spec_trunk_height() + self.spec_canopy_height()) as i32,
                z: CANOPY_RADIUS,
            }),
    {
        IVec3 { x: CANOPY_RADIUS, y: self.trunk_height + self.canopy_height, z: CANOPY_RADIUS }
    }

    /// Whether a cell of the crown holds leaves.
    pub fn is_leaf(self, offset: IVec3) -> (r: bool)
        requires
            self.wf(),
            offset_in_range(offset),
        ensures
            r == self.spec_is_leaf(offset),
    {
        let layer = offset.y - self.trunk_height;
        if layer < -1 || layer > self.canopy_height {
            return false;
        }
        let radius: i32 = if layer == -1 {
            1
        } else if layer == 0 {
            CANOPY_RADIUS
        } else if layer == 1 && self.canopy_height == 1 {
            1
        } else if layer == 1 {
            CANOPY_RADIUS
        } else if layer == 2 {
            1
        } else {
            return false;
        };
        let ax = if offset.x < 0 {
            -offset.x
        } else {
            offset.x
        };
        let az = if offset.z < 0 {
            -offset.z
        } else {
            offset.z
        };
        assert(ax == abs_int(offset.x as int) && az == abs_int(offset.z as int));
        assert(layer_radius(self.canopy_height, layer as int) == Some(radius as int));
        if ax > radius || az > radius {
            return false;
        }
        let hash = self.silhouette_seed ^ (offset.x as u32 as u64).wrapping_mul(0x9E37_79B1) ^ (
        offset.z as u32 as u64).wrapping_mul(0x85EB_CA77) ^ (offset.y as u32 as u64).wrapping_mul(
            0xC2B2_AE3D,
        );
        if radius == 1 {
            let corner = ax == 1 && az == 1;
            return !corner || hash % 2 != 0;
        }
        assert(0 <= offset.x * offset.x <= 4 && 0 <= offset.z * offset.z <= 4) by (nonlinear_arith)
            requires
                -2 <= offset.x <= 2,
                -2 <= offset.z <= 2,
        ;
        let distance_squared = offset.x * offset.x + offset.z * offset.z;
        if distance_squared > 5 {
            return false;
        }
        distance_squared != 5 || hash % 5 != 0
    }

    /// The block of a cell of the shape, relative to the ground block.
    pub fn block_at(self, offset: IVec3) -> (r: Option<BlockId>)
        requires
            self.wf(),
        ensures
            r == self.spec_block_at(offset),
    {
        if offset.x < -0x4000 || offset.x > 0x4000 || offset.y < -0x4000 || offset.y > 0x4000
            || offset.z < -0x4000 || offset.z > 0x4000 {
            proof {
                law_tree_stays_in_its_box(self, offset);
            }
            return None;
        }
        if offset.x == 0 && offset.z == 0 && 1 <= offset.y && offset.y <= self.trunk_height {
            return Some(BlockId::WOOD_LOG);
        }
        if self.is_leaf(offset) {
            Some(BlockId::LEAVES)
        } else {
            None
        }
    }

    /// How far, horizontally, a tree reaches from its trunk.
    pub fn maximum_reach() -> (r: i32)
        ensures
            r == CANOPY_RADIUS,
    {
        CANOPY_RADIUS
    }
}

/// Every cell of a tree lies inside its bounding box, and the trunk cells
/// hold logs even where the crown reaches them.
pub proof fn law_tree_stays_in_its_box(shape: TreeShape, offset: IVec3)
    requires
        shape.wf(),
    ensures
        shape.spec_block_at(offset) is Some ==> {
            &&& -CANOPY_RADIUS <= offset.x <= CANOPY_RADIUS
            &&& 1 <= offset.y <= shape.spec_trunk_height() + shape.spec_canopy_height()
            &&& -CANOPY_RADIUS <= offset.z <= CANOPY_RADIUS
        },
        shape.spec_is_trunk(offset) ==> shape.spec_block_at(offset) == Some(BlockId::WOOD_LOG),
{
}

/// A tree placed at a ground block.
#[derive(Clone, Copy, Debug, PartialEq, Eq, Structural)]
pub struct GeneratedTree {
    ground: IVec3,
    shape: TreeShape,
}

/// Trees whose box stays inside the coordinate range.
pub open spec fn ground_in_range(ground: IVec3) -> bool {
    &&& -0x4000_0000 <= ground.x <= 0x4000_0000
    &&& -0x4000_0000 <= ground.y <= 0x4000_0000
    &&& -0x4000_0000 <= ground.z <= 0x4000_0000
}

/// The height of a tree's box: its trunk and its canopy.
pub open spec fn box_height(tree: GeneratedTree) -> int {
    tree.spec_shape().spec_trunk_height() + tree.spec_shape().spec_canopy_height()
}

/// The offset from a tree's ground of the `i`-th cell of its box, for a box
/// `height` tall: columns x-major then z, each column bottom to top.
pub open spec fn box_offset(i: int, height: int) -> IVec3 {
    IVec3 {
        x: ((i / height) / 5 - CANOPY_RADIUS) as i32,
        y: (i % height + 1) as i32,
        z: ((i / height) % 5 - CANOPY_RADIUS) as i32,
    }
}

/// The `i`-th cell of a tree's box allows the tree: it is no leaf cell, or
/// it lies above both the column's surface and the sea, or its block is air.
pub open spec fn box_cell_clear(
    tree: GeneratedTree,
    i: int,
    surface: i32,
    block: Option<BlockId>,
) -> bool {
    let offset = box_offset(i, box_height(tree));
    let y = tree.spec_ground().y + offset.y;
    tree.spec_shape().spec_is_leaf(offset) && !(y > surface && y > SEA_LEVEL) ==> block == Some(
        BlockId::AIR,
    )
}

/// A tree may stand on its site: its ground block is grass or dirt, the
/// `CLEARANCE_HEIGHT` blocks above its ground are air, and every leaf cell
/// of its box lies above the column's surface and the sea or is air. The
/// site is given by its blocks before trees: `ground`, `clearance` from one
/// above the ground upwards, the surface of each of the box's 25 columns
/// (x-major, then z) and the blocks of the box's cells (`box_offset` order).
pub open spec fn tree_site_valid(
    tree: GeneratedTree,
    ground: Option<BlockId>,
    clearance: Seq<Option<BlockId>>,
    surfaces: Seq<i32>,
    blocks: Seq<Option<BlockId>>,
) -> bool {
    let height = box_height(tree);
    &&& (ground == Some(BlockId::GRASS) || ground == Some(BlockId::DIRT))
    &&& forall|k: int| 0 <= k < CLEARANCE_HEIGHT ==> #[trigger] clearance[k] == Some(BlockId::AIR)
    &&& forall|i: int|
        0 <= i < 25 * height ==> box_cell_clear(tree, i, surfaces[i / height], #[trigger] blocks[i])
}

impl GeneratedTree {
    pub closed spec fn spec_ground(self) -> IVec3 {
        self.ground
    }

    pub closed spec fn spec_shape(self) -> TreeShape {
        self.shape
    }

    pub open spec fn wf(self) -> bool {
        self.spec_shape().wf() && ground_in_range(self.spec_ground())
    }

    /// The block a tree puts at a world position.
    pub open spec fn spec_block_at(self, position: IVec3) -> Option<BlockId> {
        self.spec_shape().spec_block_at(
            IVec3 {
                x: (position.x - self.spec_ground().x) as i32,
                y: (position.y - self.spec_ground().y) as i32,
                z: (position.z - self.spec_ground().z) as i32,
            },
        )
    }

    /// A tree standing on the ground block at `horizontal`, height `ground_y`.
    pub fn new(horizontal: IVec2, ground_y: i32, shape: TreeShape) -> (r: GeneratedTree)
        ensures
            r.spec_ground() == (IVec3 { x: horizontal.x, y: ground_y, z: horizontal.y }),
            r.spec_shape() == shape,
    {
        GeneratedTree { ground: IVec3 { x: horizontal.x, y: ground_y, z: horizontal.y }, shape }
    }

    /// Whether the tree's shape and ground stay within their ranges.
    pub fn is_well_formed(self) -> (r: bool)
        ensures
            r == self.wf(),
    {
        let shape = self.shape;
        let ground = self.ground;
        MIN_TRUNK_HEIGHT <= shape.trunk_height && shape.trunk_height <= MAX_TRUNK_HEIGHT && 1
            <= shape.canopy_height && shape.canopy_height <= MAX_CANOPY_HEIGHT && -0x4000_0000
            <= ground.x && ground.x <= 0x4000_0000 && -0x4000_0000 <= ground.y && ground.y
            <= 0x4000_0000 && -0x4000_0000 <= ground.z && ground.z <= 0x4000_0000
    }

    pub fn ground(self) -> (r: IVec3)
        ensures
            r == self.spec_ground(),
    {
        self.ground
    }

    pub fn shape(self) -> (r: TreeShape)
        ensures
            r == self.spec_shape(),
    {
        self.shape
    }

    pub fn trunk_height(self) -> (r: i32)
        ensures
            r == self.spec_shape().spec_trunk_height(),
    {
        self.shape.trunk_height()
    }

    /// The block the tree puts at a world position near it.
    pub fn block_at(self, position: IVec3) -> (r: Option<BlockId>)
        requires
            self.wf(),
            i32::MIN <= position.x - self.spec_ground().x <= i32::MAX,
            i32::MIN <= position.y - self.spec_ground().y <= i32::MAX,
            i32::MIN <= position.z - self.spec_ground().z <= i32::MAX,
        ensures
            r == self.spec_block_at(position),
    {
        let offset = IVec3 {
            x: position.x - self.ground.x,
            y: position.y - self.ground.y,
            z: position.z - self.ground.z,
        };
        self.shape.block_at(offset)
    }

    /// Whether the tree may stand on its site, given the site's blocks
    /// before trees as `tree_site_valid` lays them out.
    pub fn site_is_valid(
        self,
        ground: Option<BlockId>,
        clearance: &Vec<Option<BlockId>>,
        surfaces: &Vec<i32>,
        blocks: &Vec<Option<BlockId>>,
    ) -> (r: bool)
        requires
            self.wf(),
            clearance@.len() == CLEARANCE_HEIGHT,
            surfaces@.len() == 25,
            blocks@.len() == 25 * box_height(self),
        ensures
            r == tree_site_valid(self, ground, clearance@, surfaces@, blocks@),
    {
        match ground {
            Some(BlockId::GRASS) | Some(BlockId::DIRT) => {},
            _ => {
                return false;
            },
        }
        let mut k: usize = 0;
        while k < clearance.len()
            invariant
                k <= clearance@.len(),
                clearance@.len() == CLEARANCE_HEIGHT,
                forall|j: int| 0 <= j < k ==> #[trigger] clearance@[j] == Some(BlockId::AIR),
            decreases clearance@.len() - k,
        {
            match clearance[k] {
                Some(BlockId::AIR) => {},
                _ => {
                    return false;
                },
            }
            k = k + 1;
        }
        let height: usize = (self.shape.trunk_height() + self.shape.canopy_height()) as usize;
        let count: usize = 25 * height;
        let ground_y = self.ground.y;
        let mut i: usize = 0;
        while i < count
            invariant
                self.wf(),
                height == box_height(self),
                count == 25 * height,
                ground_y == self.spec_ground().y,
                i <= count,
                surfaces@.len() == 25,
                blocks@.len() == count,
                forall|j: int|
                    0 <= j < i ==> box_cell_clear(self, j, surfaces@[j / height as int], #[trigger] blocks@[j]),
            decreases count - i,
        {
            let column = i / height;
            assert(column < 25) by (nonlinear_arith)
                requires
                    i < 25 * height,
                    column == i / height,
                    height > 0,
            ;
            let offset = IVec3 {
                x: (column / 5) as i32 - CANOPY_RADIUS,
                y: (i % height) as i32 + 1,
                z: (column % 5) as i32 - CANOPY_RADIUS,
            };
            assert(offset == box_offset(i as int, height as int));
            let y = ground_y as i64 + offset.y as i64;
            if self.shape.is_leaf(offset) && !(y > surfaces[column] as i64 && y > SEA_LEVEL as i64) {
                match blocks[i] {
                    Some(BlockId::AIR) => {},
                    _ => {
                        return false;
                    },
                }
            }
            i = i + 1;
        }
        true
    }

    /// The lowest corner of the tree's bounding box.
    pub fn minimum(self) -> (r: IVec3)
        requires
            self.wf(),
        ensures
            r == (IVec3 {
                x: (self.spec_ground().x - CANOPY_RADIUS) as i32,
                y: (self.spec_ground().y + 1) as i32,
                z: (self.spec_ground().z - CANOPY_RADIUS) as i32,
            }),
    {
        let offset = self.shape.minimum_offset();
        IVec3 {
            x: self.ground.x + offset.x,
            y: self.ground.y + offset.y,
            z: self.ground.z + offset.z,
        }
    }

    /// The highest corner of the tree's bounding box.
    pub fn maximum(self) -> (r: IVec3)
        requires
            self.wf(),
        ensures
            r == (IVec3 {
                x: (self.spec_ground().x + CANOPY_RADIUS) as i32,
                y: (self.spec_ground().y + self.spec_shape().spec_trunk_height()
                    + self.spec_shape().spec_canopy_height()) as i32,
                z: (self.spec_ground().z + CANOPY_RADIUS) as i32,
            }),
    {
        let offset = self.shape.maximum_offset();
        IVec3 {
            x: self.ground.x + offset.x,
            y: self.ground.y + offset.y,
            z: self.ground.z + offset.z,
        }
    }
}

} // verus!
