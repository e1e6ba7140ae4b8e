use vstd::prelude::*;

use crate::blocks::BlockId;
use crate::geometry::IVec3;
use crate::hashing::{
    deposit_cell_hash, deposit_cell_hash_spec, lake_cell_hash, lake_cell_hash_spec,
};

verus! {

pub const HORIZONTAL_SPACING: i32 = 48;
pub const VERTICAL_SPACING: i32 = 32;
pub const UNDERGROUND_LAVA_CHANCE_PERCENT: u64 = 6;
pub const UNDERGROUND_WATER_CHANCE_PERCENT: u64 = 10;
pub const MIN_HORIZONTAL_RADIUS: i32 = 5;
pub const MAX_HORIZONTAL_RADIUS: i32 = 9;
pub const MIN_VERTICAL_RADIUS: i32 = 3;
pub const MAX_VERTICAL_RADIUS: i32 = 5;
pub const MAX_WATER_CENTER_Y: i32 = -12;
pub const MAX_LAVA_CENTER_Y: i32 = -40;
pub const LAKE_SURFACE_CLEARANCE: i32 = 6;
pub const LAKE_FLOOR_CLEARANCE: i32 = 8;
pub const UNDERGROUND_LAKE_SEED: u64 = 0x510E_527F_ADE6_82D1;

pub const DEPOSIT_CELL_SIZE: i32 = 16;
pub const GRAVEL_CHANCE_PER_THOUSAND: u64 = 90;
pub const CLAY_CHANCE_PER_THOUSAND: u64 = 50;
pub const DEPOSIT_MAX_RADIUS: i32 = 4;
pub const DEPOSIT_SURFACE_CLEARANCE: i32 = 6;
pub const DEPOSIT_SEED: u64 = 0x3F84_D5B5_B547_0917;

/// The liquid an underground chamber holds.
#[derive(Clone, Copy, Debug, PartialEq, Eq, Structural, Hash)]
pub enum UndergroundLakeKind {
    Water,
    Lava,
}

impl UndergroundLakeKind {
    pub open spec fn spec_block(self) -> BlockId {
        match self {
            UndergroundLakeKind::Water => BlockId::WATER,
            UndergroundLakeKind::Lava => BlockId::LAVA,
        }
    }

    pub fn block(self) -> (r: BlockId)
        ensures
            r == self.spec_block(),
    {
        match self {
            UndergroundLakeKind::Water => BlockId::WATER,
            UndergroundLakeKind::Lava => BlockId::LAVA,
        }
    }
}

/// A partially filled underground chamber.
#[derive(Clone, Copy, Debug, PartialEq, Eq, Structural)]
pub struct UndergroundLake {
    pub kind: UndergroundLakeKind,
    pub center: IVec3,
    pub radius_x: i32,
    pub radius_y: i32,
    pub radius_z: i32,
    pub liquid_level: i32,
}

/// Places underground chambers of water and lava on a jittered 3D lattice.
#[derive(Clone, Copy, Debug, PartialEq, Eq, Structural)]
pub struct UndergroundLakeSampler {
    pub seed: u64,
    pub world_floor: i32,
}

/// Lattice cells whose chambers stay inside the coordinate range.
pub open spec fn lake_cell_in_range(cell: IVec3) -> bool {
    &&& -0x0200_0000 <= cell.x <= 0x0200_0000
    &&& -0x0300_0000 <= cell.y <= 0x0300_0000
    &&& -0x0200_0000 <= cell.z <= 0x0200_0000
}

/// Block positions whose lattice cells are in range.
pub open spec fn lake_position_in_range(position: IVec3) -> bool {
    &&& -0x6000_0000 <= position.x <= 0x6000_0000
    &&& -0x6000_0000 <= position.y <= 0x6000_0000
    &&& -0x6000_0000 <= position.z <= 0x6000_0000
}

/// The chamber a lattice cell rolls: lava below the lava chance, water below
/// both chances together; a jittered center that must lie low enough for its
/// kind; radii from their ranges; a water surface one block below the center
/// and a lava surface at the center.
pub open spec fn underground_lake_spec(seed: u64, cell: IVec3) -> Option<UndergroundLake> {
    let base = lake_cell_hash_spec(seed ^ UNDERGROUND_LAKE_SEED, cell.x, cell.y, cell.z);
    let roll = base % 100;
    let horizontal_margin = MAX_HORIZONTAL_RADIUS + 2;
    let horizontal_span = HORIZONTAL_SPACING - horizontal_margin * 2;
    let vertical_margin = MAX_VERTICAL_RADIUS + 2;
    let vertical_span = VERTICAL_SPACING - vertical_margin * 2;
    let kind = if roll < UNDERGROUND_LAVA_CHANCE_PERCENT {
        UndergroundLakeKind::Lava
    } else {
        UndergroundLakeKind::Water
    };
    let center = IVec3 {
        x: (cell.x * HORIZONTAL_SPACING + horizontal_margin + ((base >> 8u64) % (
        horizontal_span as u64))) as i32,
        y: (cell.y * VERTICAL_SPACING + vertical_margin + ((base >> 20u64) % (
        vertical_span as u64))) as i32,
        z: (cell.z * HORIZONTAL_SPACING + horizontal_margin + ((base >> 32u64) % (
        horizontal_span as u64))) as i32,
    };
    let maximum_center_y = match kind {
        UndergroundLakeKind::Water => MAX_WATER_CENTER_Y,
        UndergroundLakeKind::Lava => MAX_LAVA_CENTER_Y,
    };
    let horizontal_radius_span = MAX_HORIZONTAL_RADIUS - MIN_HORIZONTAL_RADIUS + 1;
    let vertical_radius_span = MAX_VERTICAL_RADIUS - MIN_VERTICAL_RADIUS + 1;
    if roll >= UNDERGROUND_LAVA_CHANCE_PERCENT + UNDERGROUND_WATER_CHANCE_PERCENT {
        None
    } else if center.y > maximum_center_y {
        None
    } else {
        Some(
            UndergroundLake {
                kind,
                center,
                radius_x: (MIN_HORIZONTAL_RADIUS + ((base >> 44u64) % (
                horizontal_radius_span as u64))) as i32,
                radius_z: (MIN_HORIZONTAL_RADIUS + ((base >> 51u64) % (
                horizontal_radius_span as u64))) as i32,
                radius_y: (MIN_VERTICAL_RADIUS + ((base >> 58u64) % (
                vertical_radius_span as u64))) as i32,
                liquid_level: (center.y - match kind {
                    UndergroundLakeKind::Water => 1int,
                    UndergroundLakeKind::Lava => 0int,
                }) as i32,
            },
        )
    }
}

/// The block a chamber puts at `position` over `terrain`, given whether the
/// position lies inside the chamber's irregular outline: chambers that would
/// reach within the surface clearance or the floor clearance leave the
/// terrain; inside the bounding box and the outline the chamber holds liquid
/// up to its liquid level and air above.
pub open spec fn chamber_block_spec(
    world_floor: i32,
    position: IVec3,
    surface: i32,
    terrain: BlockId,
    lake: Option<UndergroundLake>,
    within_outline: bool,
) -> BlockId {
    match lake {
        None => terrain,
        Some(lake) => {
            let dx = position.x - lake.center.x;
            let dy = position.y - lake.center.y;
            let dz = position.z - lake.center.z;
            if lake.center.y + lake.radius_y + LAKE_SURFACE_CLEARANCE > surface || lake.center.y
                - lake.radius_y <= world_floor + LAKE_FLOOR_CLEARANCE {
                terrain
            } else if dx > lake.radius_x || -dx > lake.radius_x || dy > lake.radius_y || -dy
                > lake.radius_y || dz > lake.radius_z || -dz > lake.radius_z {
                terrain
            } else if !within_outline {
                terrain
            } else if position.y <= lake.liquid_level {
                lake.kind.spec_block()
            } else {
                BlockId::AIR
            }
        },
    }
}

/// The lattice cells of a chunk's widened box are the chunk's own cell
/// coordinate and its two neighbours.
proof fn lemma_neighbour_cells(c: i32)
    requires
        -0x003F_FFFF <= c <= 0x003F_FFFF,
    ensures
        (c * 16 - DEPOSIT_MAX_RADIUS) as int / 16 == c - 1,
        (c * 16 - DEPOSIT_MAX_RADIUS + 15 + DEPOSIT_MAX_RADIUS * 2) as int / 16 == c + 1,
{
    assert((c * 16 - 4) / 16 == c - 1) by (nonlinear_arith);
    assert((c * 16 + 19) / 16 == c + 1) by (nonlinear_arith);
}

/// The cell visited at offsets `(i, j, l)` is the `9i + 3j + l`-th cell around the chunk.
proof fn lemma_cell_around(chunk: IVec3, i: int, j: int, l: int)
    requires
        0 <= i < 3,
        0 <= j < 3,
        0 <= l < 3,
    ensures
        (9 * i + 3 * j + l) / 9 == i,
        ((9 * i + 3 * j + l) / 3) % 3 == j,
        (9 * i + 3 * j + l) % 3 == l,
{
    assert((9 * i + 3 * j + l) / 9 == i) by (nonlinear_arith)
        requires
            0 <= i < 3,
            0 <= j < 3,
            0 <= l < 3,
    ;
    assert((9 * i + 3 * j + l) / 3 == 3 * i + j) by (nonlinear_arith)
        requires
            0 <= l < 3,
    ;
    assert((3 * i + j) % 3 == j) by (nonlinear_arith)
        requires
            0 <= j < 3,
            0 <= i,
    ;
    assert((9 * i + 3 * j + l) % 3 == l) by (nonlinear_arith)
        requires
            0 <= i,
            0 <= j,
            0 <= l < 3,
    ;
}

/// Euclidean division of a coordinate by a positive spacing.
fn floor_div(value: i32, divisor: i32) -> (r: i32)
    requires
        divisor > 0,
    ensures
        r == value as int / divisor as int,
{
    assert(i32::MIN <= value as int / divisor as int <= i32::MAX) by (nonlinear_arith)
        requires
            divisor > 0,
            i32::MIN <= value <= i32::MAX,
    ;
    match value.checked_div_euclid(divisor) {
        Some(r) => r,
        None => 0,
    }
}

impl UndergroundLakeSampler {
    pub fn new(seed: u64, world_floor: i32) -> (r: UndergroundLakeSampler)
        ensures
            r.seed == seed,
            r.world_floor == world_floor,
    {
        UndergroundLakeSampler { seed, world_floor }
    }

    /// The chamber a lattice cell holds, if any.
    pub fn candidate(self, cell: IVec3) -> (r: Option<UndergroundLake>)
        requires
            lake_cell_in_range(cell),
        ensures
            r == underground_lake_spec(self.seed, cell),
    {
        let base = lake_cell_hash(self.seed ^ UNDERGROUND_LAKE_SEED, cell.x, cell.y, cell.z);
        let roll = base % 100;
        let kind = if roll < UNDERGROUND_LAVA_CHANCE_PERCENT {
            UndergroundLakeKind::Lava
        } else if roll < UNDERGROUND_LAVA_CHANCE_PERCENT + UNDERGROUND_WATER_CHANCE_PERCENT {
            UndergroundLakeKind::Water
        } else {
            return None;
        };
        let horizontal_margin = MAX_HORIZONTAL_RADIUS + 2;
        let horizontal_span = HORIZONTAL_SPACING - horizontal_margin * 2;
        let vertical_margin = MAX_VERTICAL_RADIUS + 2;
        let vertical_span = VERTICAL_SPACING - vertical_margin * 2;
        assert(-0x0200_0000 * 48 <= cell.x * 48 <= 0x0200_0000 * 48) by (nonlinear_arith)
            requires
                -0x0200_0000 <= cell.x <= 0x0200_0000,
        ;
        assert(-0x0200_0000 * 48 <= cell.z * 48 <= 0x0200_0000 * 48) by (nonlinear_arith)
            requires
                -0x0200_0000 <= cell.z <= 0x0200_0000,
        ;
        assert(-0x0300_0000 * 32 <= cell.y * 32 <= 0x0300_0000 * 32) by (nonlinear_arith)
            requires
                -0x0300_0000 <= cell.y <= 0x0300_0000,
        ;
        let center = IVec3 {
            x: cell.x * HORIZONTAL_SPACING + horizontal_margin + ((base >> 8) % horizontal_span
                as u64) as i32,
            y: cell.y * VERTICAL_SPACING + vertical_margin + ((base >> 20) % vertical_span as u64)
                as i32,
            z: cell.z * HORIZONTAL_SPACING + horizontal_margin + ((base >> 32) % horizontal_span
                as u64) as i32,
        };
        let maximum_center_y = match kind {
            UndergroundLakeKind::Water => MAX_WATER_CENTER_Y,
            UndergroundLakeKind::Lava => MAX_LAVA_CENTER_Y,
        };
        if center.y > maximum_center_y {
            return None;
        }
        let horizontal_radius_span = (MAX_HORIZONTAL_RADIUS - MIN_HORIZONTAL_RADIUS + 1) as u64;
        let vertical_radius_span = (MAX_VERTICAL_RADIUS - MIN_VERTICAL_RADIUS + 1) as u64;
        let radius_x = MIN_HORIZONTAL_RADIUS + ((base >> 44) % horizontal_radius_span) as i32;
        let radius_z = MIN_HORIZONTAL_RADIUS + ((base >> 51) % horizontal_radius_span) as i32;
        let radius_y = MIN_VERTICAL_RADIUS + ((base >> 58) % vertical_radius_span) as i32;
        let liquid_level = center.y - match kind {
            UndergroundLakeKind::Water => 1,
            UndergroundLakeKind::Lava => 0,
        };
        Some(UndergroundLake { kind, center, radius_x, radius_y, radius_z, liquid_level })
    }

    /// The lattice cell containing a block position.
    pub fn cell_of(position: IVec3) -> (r: IVec3)
        requires
            lake_position_in_range(position),
        ensures
            r.x == position.x as int / HORIZONTAL_SPACING as int,
            r.y == position.y as int / VERTICAL_SPACING as int,
            r.z == position.z as int / HORIZONTAL_SPACING as int,
            lake_cell_in_range(r),
    {
        let r = IVec3 {
            x: floor_div(position.x, HORIZONTAL_SPACING),
            y: floor_div(position.y, VERTICAL_SPACING),
            z: floor_div(position.z, HORIZONTAL_SPACING),
        };
        assert(lake_cell_in_range(r)) by (nonlinear_arith)
            requires
                r.x == position.x as int / 48,
                r.y == position.y as int / 32,
                r.z == position.z as int / 48,
                lake_position_in_range(position),
        ;
        r
    }

    /// The chamber of the lattice cell holding the lowest corner of a chunk;
    /// none for chunks entirely above the highest possible chamber.
    pub fn chunk_lake(self, chunk_position: IVec3) -> (r: Option<UndergroundLake>)
        requires
            -0x0600_0000 <= chunk_position.x <= 0x0600_0000,
            -0x0600_0000 <= chunk_position.y <= 0x0600_0000,
            -0x0600_0000 <= chunk_position.z <= 0x0600_0000,
        ensures
            chunk_position.y * 16 > MAX_WATER_CENTER_Y + MAX_VERTICAL_RADIUS ==> r.is_none(),
            chunk_position.y * 16 <= MAX_WATER_CENTER_Y + MAX_VERTICAL_RADIUS ==> r
                == underground_lake_spec(
                self.seed,
                IVec3 {
                    x: ((chunk_position.x * 16) / HORIZONTAL_SPACING as int) as i32,
                    y: ((chunk_position.y * 16) / VERTICAL_SPACING as int) as i32,
                    z: ((chunk_position.z * 16) / HORIZONTAL_SPACING as int) as i32,
                },
            ),
    {
        let minimum = IVec3 {
            x: chunk_position.x * 16,
            y: chunk_position.y * 16,
            z: chunk_position.z * 16,
        };
        if minimum.y > MAX_WATER_CENTER_Y + MAX_VERTICAL_RADIUS {
            return None;
        }
        let cell = UndergroundLakeSampler::cell_of(minimum);
        self.candidate(cell)
    }

    /// The block at `position` given the chamber of its lattice cell and
    /// whether the position lies inside that chamber's outline.
    pub fn block_from_lake(
        self,
        position: IVec3,
        surface: i32,
        terrain: BlockId,
        lake: Option<UndergroundLake>,
        within_outline: bool,
    ) -> (r: BlockId)
        ensures
            r == chamber_block_spec(
                self.world_floor,
                position,
                surface,
                terrain,
                lake,
                within_outline,
            ),
    {
        let lake = match lake {
            Some(lake) => lake,
            None => {
                return terrain;
            },
        };
        if lake.center.y as i64 + lake.radius_y as i64 + LAKE_SURFACE_CLEARANCE as i64
            > surface as i64 || lake.center.y as i64 - lake.radius_y as i64
            <= self.world_floor as i64 + LAKE_FLOOR_CLEARANCE as i64 {
            return terrain;
        }
        let dx = position.x as i64 - lake.center.x as i64;
        let dy = position.y as i64 - lake.center.y as i64;
        let dz = position.z as i64 - lake.center.z as i64;
        if dx > lake.radius_x as i64 || -dx > lake.radius_x as i64 || dy > lake.radius_y as i64
            || -dy > lake.radius_y as i64 || dz > lake.radius_z as i64 || -dz
            > lake.radius_z as i64 {
            return terrain;
        }
        if !within_outline {
            return terrain;
        }
        if position.y <= lake.liquid_level {
            lake.kind.block()
        } else {
            BlockId::AIR
        }
    }
}

/// A small pocket of gravel or clay inside stone.
#[derive(Clone, Copy, Debug, PartialEq, Eq, Structural)]
pub struct UndergroundDeposit {
    pub center: IVec3,
    pub radii: IVec3,
    pub block: BlockId,
}

/// Places pockets of gravel and clay on a jittered 3D lattice.
#[derive(Clone, Copy, Debug, PartialEq, Eq, Structural)]
pub struct UndergroundDepositSampler {
    pub seed: u64,
}

/// Lattice cells whose pockets stay inside the coordinate range.
pub open spec fn deposit_cell_in_range(cell: IVec3) -> bool {
    &&& -0x0040_0000 <= cell.x <= 0x0040_0000
    &&& -0x0040_0000 <= cell.y <= 0x0040_0000
    &&& -0x0040_0000 <= cell.z <= 0x0040_0000
}

/// The pocket a lattice cell rolls: gravel below the gravel chance, clay below
/// both chances together, a center jittered away from the cell's faces and
/// small radii.
pub open spec fn deposit_spec(seed: u64, cell: IVec3) -> Option<UndergroundDeposit> {
    let value = deposit_cell_hash_spec(seed ^ DEPOSIT_SEED, cell.x, cell.y, cell.z);
    let roll = value % 1000;
    let margin = DEPOSIT_MAX_RADIUS;
    let jitter_span = DEPOSIT_CELL_SIZE - margin * 2;
    if roll >= GRAVEL_CHANCE_PER_THOUSAND + CLAY_CHANCE_PER_THOUSAND {
        None
    } else {
        Some(
            UndergroundDeposit {
                center: IVec3 {
                    x: (cell.x * DEPOSIT_CELL_SIZE + margin + ((value >> 10u64) % (
                    jitter_span as u64))) as i32,
                    y: (cell.y * DEPOSIT_CELL_SIZE + margin + ((value >> 20u64) % (
                    jitter_span as u64))) as i32,
                    z: (cell.z * DEPOSIT_CELL_SIZE + margin + ((value >> 30u64) % (
                    jitter_span as u64))) as i32,
                },
                radii: IVec3 {
                    x: (2 + ((value >> 40u64) % 3)) as i32,
                    y: (1 + ((value >> 44u64) % 3)) as i32,
                    z: (2 + ((value >> 48u64) % 3)) as i32,
                },
                block: if roll < GRAVEL_CHANCE_PER_THOUSAND {
                    BlockId::GRAVEL
                } else {
                    BlockId::CLAY
                },
            },
        )
    }
}

/// The pocket's bounding box meets the box from `minimum` to `maximum`.
pub open spec fn overlaps_spec(deposit: UndergroundDeposit, minimum: IVec3, maximum: IVec3) -> bool {
    &&& deposit.center.x - deposit.radii.x <= maximum.x
    &&& deposit.center.y - deposit.radii.y <= maximum.y
    &&& deposit.center.z - deposit.radii.z <= maximum.z
    &&& deposit.center.x + deposit.radii.x >= minimum.x
    &&& deposit.center.y + deposit.radii.y >= minimum.y
    &&& deposit.center.z + deposit.radii.z >= minimum.z
}

/// The block a pocket search leaves at a cell: only stone deep enough below
/// the surface takes the material of the first pocket that contains the cell.
pub open spec fn deposit_block_spec(
    y: i32,
    surface: i32,
    underlying: BlockId,
    deposits: Seq<UndergroundDeposit>,
    containing: Seq<bool>,
) -> BlockId {
    if underlying != BlockId::STONE || y > surface - DEPOSIT_SURFACE_CLEARANCE {
        underlying
    } else {
        match first_containing(deposits, containing, 0) {
            Some(i) => deposits[i].block,
            None => underlying,
        }
    }
}

/// The index of the first pocket, from `start` on, flagged as containing the cell.
pub open spec fn first_containing(
    deposits: Seq<UndergroundDeposit>,
    containing: Seq<bool>,
    start: int,
) -> Option<int>
    decreases deposits.len() - start,
{
    if start >= deposits.len() || start < 0 {
        None
    } else if containing[start] {
        Some(start)
    } else {
        first_containing(deposits, containing, start + 1)
    }
}

/// Chunks whose neighbouring lattice cells stay inside the lattice range.
pub open spec fn deposit_chunk_in_range(chunk: IVec3) -> bool {
    &&& -0x003F_FFFF <= chunk.x <= 0x003F_FFFF
    &&& -0x003F_FFFF <= chunk.y <= 0x003F_FFFF
    &&& -0x003F_FFFF <= chunk.z <= 0x003F_FFFF
}

/// Lowest corner of the box a chunk's pockets must reach: the chunk widened
/// by the largest pocket radius.
pub open spec fn deposit_box_minimum(chunk: IVec3) -> IVec3 {
    IVec3 {
        x: (chunk.x * 16 - DEPOSIT_MAX_RADIUS) as i32,
        y: (chunk.y * 16 - DEPOSIT_MAX_RADIUS) as i32,
        z: (chunk.z * 16 - DEPOSIT_MAX_RADIUS) as i32,
    }
}

/// Highest corner of that box.
pub open spec fn deposit_box_maximum(chunk: IVec3) -> IVec3 {
    IVec3 {
        x: (chunk.x * 16 + 15 + DEPOSIT_MAX_RADIUS) as i32,
        y: (chunk.y * 16 + 15 + DEPOSIT_MAX_RADIUS) as i32,
        z: (chunk.z * 16 + 15 + DEPOSIT_MAX_RADIUS) as i32,
    }
}

/// The `k`-th of the 27 lattice cells around a chunk, x-major, then y, then z.
pub open spec fn deposit_cell_around(chunk: IVec3, k: int) -> IVec3 {
    IVec3 {
        x: (chunk.x - 1 + k / 9) as i32,
        y: (chunk.y - 1 + (k / 3) % 3) as i32,
        z: (chunk.z - 1 + k % 3) as i32,
    }
}

/// The pockets of the first `k` cells around a chunk that reach its box, in cell order.
pub open spec fn chunk_deposits_upto(seed: u64, chunk: IVec3, k: nat) -> Seq<UndergroundDeposit>
    decreases k,
{
    if k == 0 {
        Seq::empty()
    } else {
        let earlier = chunk_deposits_upto(seed, chunk, (k - 1) as nat);
        match deposit_spec(seed, deposit_cell_around(chunk, k - 1)) {
            Some(deposit) => if overlaps_spec(
                deposit,
                deposit_box_minimum(chunk),
                deposit_box_maximum(chunk),
            ) {
                earlier.push(deposit)
            } else {
                earlier
            },
            None => earlier,
        }
    }
}

/// The pockets that can reach into a chunk, in lattice cell order.
pub open spec fn chunk_deposits_spec(seed: u64, chunk: IVec3) -> Seq<UndergroundDeposit> {
    chunk_deposits_upto(seed, chunk, 27)
}

/// Every pocket the deposit sampler finds for a chunk is of gravel or clay.
pub proof fn law_pockets_are_gravel_or_clay(seed: u64, chunk: IVec3)
    ensures
        forall|i: int|
            0 <= i < chunk_deposits_spec(seed, chunk).len() ==> (#[trigger] chunk_deposits_spec(
                seed,
                chunk,
            )[i]).block == BlockId::CLAY || chunk_deposits_spec(seed, chunk)[i].block
                == BlockId::GRAVEL,
{
    lemma_pockets_upto(seed, chunk, 27);
}

proof fn lemma_pockets_upto(seed: u64, chunk: IVec3, k: nat)
    ensures
        forall|i: int|
            0 <= i < chunk_deposits_upto(seed, chunk, k).len() ==> (#[trigger] chunk_deposits_upto(
                seed,
                chunk,
                k,
            )[i]).block == BlockId::CLAY || chunk_deposits_upto(seed, chunk, k)[i].block
                == BlockId::GRAVEL,
    decreases k,
{
    if k > 0 {
        lemma_pockets_upto(seed, chunk, (k - 1) as nat);
        let earlier = chunk_deposits_upto(seed, chunk, (k - 1) as nat);
        assert forall|i: int|
            0 <= i < chunk_deposits_upto(seed, chunk, k).len() implies (#[trigger] chunk_deposits_upto(
                seed,
                chunk,
                k,
            )[i]).block == BlockId::CLAY || chunk_deposits_upto(seed, chunk, k)[i].block
                == BlockId::GRAVEL by {
            if i < earlier.len() {
                assert(chunk_deposits_upto(seed, chunk, k)[i] == earlier[i]);
            }
        }
    }
}

impl UndergroundDepositSampler {
    pub fn new(seed: u64) -> (r: UndergroundDepositSampler)
        ensures
            r.seed == seed,
    {
        UndergroundDepositSampler { seed }
    }

    /// The pocket a lattice cell holds, if any.
    pub fn candidate(self, cell: IVec3) -> (r: Option<UndergroundDeposit>)
        requires
            deposit_cell_in_range(cell),
        ensures
            r == deposit_spec(self.seed, cell),
    {
        let value = deposit_cell_hash(self.seed ^ DEPOSIT_SEED, cell.x, cell.y, cell.z);
        let roll = value % 1000;
        let block = if roll < GRAVEL_CHANCE_PER_THOUSAND {
            BlockId::GRAVEL
        } else if roll < GRAVEL_CHANCE_PER_THOUSAND + CLAY_CHANCE_PER_THOUSAND {
            BlockId::CLAY
        } else {
            return None;
        };
        let margin = DEPOSIT_MAX_RADIUS;
        let jitter_span = (DEPOSIT_CELL_SIZE - margin * 2) as u64;
        assert(-0x0040_0000 * 16 <= cell.x * 16 <= 0x0040_0000 * 16) by (nonlinear_arith)
            requires
                -0x0040_0000 <= cell.x <= 0x0040_0000,
        ;
        assert(-0x0040_0000 * 16 <= cell.y * 16 <= 0x0040_0000 * 16) by (nonlinear_arith)
            requires
                -0x0040_0000 <= cell.y <= 0x0040_0000,
        ;
        assert(-0x0040_0000 * 16 <= cell.z * 16 <= 0x0040_0000 * 16) by (nonlinear_arith)
            requires
                -0x0040_0000 <= cell.z <= 0x0040_0000,
        ;
        let center = IVec3 {
            x: cell.x * DEPOSIT_CELL_SIZE + margin + ((value >> 10) % jitter_span) as i32,
            y: cell.y * DEPOSIT_CELL_SIZE + margin + ((value >> 20) % jitter_span) as i32,
            z: cell.z * DEPOSIT_CELL_SIZE + margin + ((value >> 30) % jitter_span) as i32,
        };
        let radii = IVec3 {
            x: 2 + ((value >> 40) % 3) as i32,
            y: 1 + ((value >> 44) % 3) as i32,
            z: 2 + ((value >> 48) % 3) as i32,
        };
        Some(UndergroundDeposit { center, radii, block })
    }

    /// The pockets whose bounding boxes reach into a chunk widened by the
    /// largest pocket radius: the lattice cells from the one holding the
    /// box's lowest corner to the one holding its highest, in x, y, z order.
    pub fn chunk_deposits(self, chunk: IVec3) -> (r: Vec<UndergroundDeposit>)
        requires
            deposit_chunk_in_range(chunk),
        ensures
            r@ == chunk_deposits_spec(self.seed, chunk),
    {
        let minimum = IVec3 {
            x: chunk.x * 16 - DEPOSIT_MAX_RADIUS,
            y: chunk.y * 16 - DEPOSIT_MAX_RADIUS,
            z: chunk.z * 16 - DEPOSIT_MAX_RADIUS,
        };
        let maximum = IVec3 {
            x: minimum.x + (15 + DEPOSIT_MAX_RADIUS * 2),
            y: minimum.y + (15 + DEPOSIT_MAX_RADIUS * 2),
            z: minimum.z + (15 + DEPOSIT_MAX_RADIUS * 2),
        };
        let minimum_cell = IVec3 {
            x: floor_div(minimum.x, DEPOSIT_CELL_SIZE),
            y: floor_div(minimum.y, DEPOSIT_CELL_SIZE),
            z: floor_div(minimum.z, DEPOSIT_CELL_SIZE),
        };
        let maximum_cell = IVec3 {
            x: floor_div(maximum.x, DEPOSIT_CELL_SIZE),
            y: floor_div(maximum.y, DEPOSIT_CELL_SIZE),
            z: floor_div(maximum.z, DEPOSIT_CELL_SIZE),
        };
        proof {
            lemma_neighbour_cells(chunk.x);
            lemma_neighbour_cells(chunk.y);
            lemma_neighbour_cells(chunk.z);
        }
        let ghost seed = self.seed;
        let mut deposits: Vec<UndergroundDeposit> = Vec::new();
        let mut cell_x = minimum_cell.x;
        while cell_x <= maximum_cell.x
            invariant
                minimum_cell.x == chunk.x - 1,
                maximum_cell.x == chunk.x + 1,
                minimum_cell.y == chunk.y - 1,
                maximum_cell.y == chunk.y + 1,
                minimum_cell.z == chunk.z - 1,
                maximum_cell.z == chunk.z + 1,
                minimum == deposit_box_minimum(chunk),
                maximum == deposit_box_maximum(chunk),
                deposit_chunk_in_range(chunk),
                seed == self.seed,
                chunk.x - 1 <= cell_x <= chunk.x + 2,
                deposits@ == chunk_deposits_upto(seed, chunk, ((cell_x - (chunk.x - 1)) * 9) as nat),
            decreases chunk.x + 2 - cell_x,
        {
            let mut cell_y = minimum_cell.y;
            while cell_y <= maximum_cell.y
                invariant
                    minimum_cell.y == chunk.y - 1,
                    maximum_cell.y == chunk.y + 1,
                    minimum_cell.z == chunk.z - 1,
                    maximum_cell.z == chunk.z + 1,
                    minimum == deposit_box_minimum(chunk),
                    maximum == deposit_box_maximum(chunk),
                    deposit_chunk_in_range(chunk),
                    seed == self.seed,
                    chunk.x - 1 <= cell_x <= chunk.x + 1,
                    chunk.y - 1 <= cell_y <= chunk.y + 2,
                    deposits@ == chunk_deposits_upto(
                        seed,
                        chunk,
                        ((cell_x - (chunk.x - 1)) * 9 + (cell_y - (chunk.y - 1)) * 3) as nat,
                    ),
                decreases chunk.y + 2 - cell_y,
            {
                let mut cell_z = minimum_cell.z;
                while cell_z <= maximum_cell.z
                    invariant
                        minimum_cell.z == chunk.z - 1,
                        maximum_cell.z == chunk.z + 1,
                        minimum == deposit_box_minimum(chunk),
                        maximum == deposit_box_maximum(chunk),
                        deposit_chunk_in_range(chunk),
                        seed == self.seed,
                        chunk.x - 1 <= cell_x <= chunk.x + 1,
                        chunk.y - 1 <= cell_y <= chunk.y + 1,
                        chunk.z - 1 <= cell_z <= chunk.z + 2,
                        deposits@ == chunk_deposits_upto(
                            seed,
                            chunk,
                            ((cell_x - (chunk.x - 1)) * 9 + (cell_y - (chunk.y - 1)) * 3 + (cell_z
                                - (chunk.z - 1))) as nat,
                        ),
                    decreases chunk.z + 2 - cell_z,
                {
                    let cell = IVec3 { x: cell_x, y: cell_y, z: cell_z };
                    let ghost k: int = (cell_x - (chunk.x - 1)) * 9 + (cell_y - (chunk.y - 1)) * 3
                        + (cell_z - (chunk.z - 1));
                    proof {
                        lemma_cell_around(chunk, cell_x - (chunk.x - 1), cell_y - (chunk.y - 1), cell_z - (chunk.z - 1));
                    }
                    if let Some(deposit) = self.candidate(cell) {
                        if deposit.overlaps(minimum, maximum) {
                            deposits.push(deposit);
                        }
                    }
                    cell_z = cell_z + 1;
                }
                cell_y = cell_y + 1;
            }
            cell_x = cell_x + 1;
        }
        deposits
    }

    /// The block a pocket search leaves at height `y`, given the pockets near
    /// the cell and, for each, whether its outline contains the cell.
    pub fn block_from_deposits(
        self,
        y: i32,
        surface: i32,
        underlying: BlockId,
        deposits: &Vec<UndergroundDeposit>,
        containing: &Vec<bool>,
    ) -> (r: BlockId)
        requires
            containing@.len() == deposits@.len(),
        ensures
            r == deposit_block_spec(y, surface, underlying, deposits@, containing@),
    {
        if underlying != BlockId::STONE || y as i64 > surface as i64
            - DEPOSIT_SURFACE_CLEARANCE as i64 {
            return underlying;
        }
        let mut i: usize = 0;
        while i < deposits.len()
            invariant
                i <= deposits@.len(),
                containing@.len() == deposits@.len(),
                underlying == BlockId::STONE,
                y <= surface - DEPOSIT_SURFACE_CLEARANCE,
                first_containing(deposits@, containing@, 0) == first_containing(
                    deposits@,
                    containing@,
                    i as int,
                ),
            decreases deposits@.len() - i,
        {
            if containing[i] {
                assert(first_containing(deposits@, containing@, i as int) == Some(i as int));
                return deposits[i].block;
            }
            i = i + 1;
        }
        underlying
    }
}

impl UndergroundDeposit {
    /// The pocket's bounding box meets the box from `minimum` to `maximum`.
    pub fn overlaps(self, minimum: IVec3, maximum: IVec3) -> (r: bool)
        ensures
            r == overlaps_spec(self, minimum, maximum),
    {
        let cx = self.center.x as i64;
        let cy = self.center.y as i64;
        let cz = self.center.z as i64;
        let rx = self.radii.x as i64;
        let ry = self.radii.y as i64;
        let rz = self.radii.z as i64;
        cx - rx <= maximum.x as i64 && cy - ry <= maximum.y as i64 && cz - rz <= maximum.z as i64
            && cx + rx >= minimum.x as i64 && cy + ry >= minimum.y as i64 && cz + rz
            >= minimum.z as i64
    }
}

} // verus!
