use vstd::prelude::*;

use crate::blocks::BlockId;
use crate::geometry::IVec2;
use crate::hashing::{hash, hash_spec};
use crate::terrain::SEA_LEVEL;

verus! {

pub const WATER_SPACING: i32 = 96;
pub const LAVA_SPACING: i32 = 160;
pub const WATER_CHANCE_PERCENT: u64 = 35;
pub const LAVA_CHANCE_PERCENT: u64 = 20;
pub const WATER_MIN_RADIUS: i32 = 5;
pub const WATER_MAX_RADIUS: i32 = 9;
pub const LAVA_MIN_RADIUS: i32 = 3;
pub const LAVA_MAX_RADIUS: i32 = 5;
pub const MAX_TERRAIN_VARIATION: i32 = 2;
pub const SPAWN_CLEAR_RADIUS: i32 = 24;

pub const LAKE_SEED: u64 = 0x6A09_E667_F3BC_C909;
pub const WATER_SALT: u64 = 0x3C6E_F372_FE94_F82B;
pub const LAVA_SALT: u64 = 0xA54F_F53A_5F1D_36F1;

/// The liquid a surface lake holds.
#[derive(Clone, Copy, Debug, PartialEq, Eq, Structural, Hash)]
pub enum LakeKind {
    Water,
    Lava,
}

impl LakeKind {
    /// Both kinds, water first.
    pub fn all() -> (r: [LakeKind; 2])
        ensures
            r@ == seq![LakeKind::Water, LakeKind::Lava],
    {
        [LakeKind::Water, LakeKind::Lava]
    }

    pub open spec fn spec_block(self) -> BlockId {
        match self {
            LakeKind::Water => BlockId::WATER,
            LakeKind::Lava => BlockId::LAVA,
        }
    }

    /// The liquid block of the lake.
    pub fn block(self) -> (r: BlockId)
        ensures
            r == self.spec_block(),
    {
        match self {
            LakeKind::Water => BlockId::WATER,
            LakeKind::Lava => BlockId::LAVA,
        }
    }

    pub open spec fn spec_spacing(self) -> i32 {
        match self {
            LakeKind::Water => WATER_SPACING,
            LakeKind::Lava => LAVA_SPACING,
        }
    }

    /// Side of the square grid cell that may hold one lake of this kind.
    pub fn spacing(self) -> (r: i32)
        ensures
            r == self.spec_spacing(),
    {
        match self {
            LakeKind::Water => WATER_SPACING,
            LakeKind::Lava => LAVA_SPACING,
        }
    }

    pub open spec fn spec_chance_percent(self) -> u64 {
        match self {
            LakeKind::Water => WATER_CHANCE_PERCENT,
            LakeKind::Lava => LAVA_CHANCE_PERCENT,
        }
    }

    /// Chance, in percent, that a grid cell holds a lake of this kind.
    pub fn chance_percent(self) -> (r: u64)
        ensures
            r == self.spec_chance_percent(),
    {
        match self {
            LakeKind::Water => WATER_CHANCE_PERCENT,
            LakeKind::Lava => LAVA_CHANCE_PERCENT,
        }
    }

    pub open spec fn spec_radius_range(self) -> (i32, i32) {
        match self {
            LakeKind::Water => (WATER_MIN_RADIUS, WATER_MAX_RADIUS),
            LakeKind::Lava => (LAVA_MIN_RADIUS, LAVA_MAX_RADIUS),
        }
    }

    /// Smallest and largest radius of a lake of this kind.
    pub fn radius_range(self) -> (r: (i32, i32))
        ensures
            r == self.spec_radius_range(),
    {
        match self {
            LakeKind::Water => (WATER_MIN_RADIUS, WATER_MAX_RADIUS),
            LakeKind::Lava => (LAVA_MIN_RADIUS, LAVA_MAX_RADIUS),
        }
    }

    pub open spec fn spec_salt(self) -> u64 {
        match self {
            LakeKind::Water => WATER_SALT,
            LakeKind::Lava => LAVA_SALT,
        }
    }
}

/// What a column holds because of a surface lake.
#[derive(Clone, Copy, Debug, PartialEq, Eq, Structural)]
pub enum LakeColumn {
    Empty,
    Basin { kind: LakeKind, level: i32, bottom: i32, terrain_surface: i32 },
    LavaRim { terrain_surface: i32 },
}

/// Places surface lakes of both kinds on a jittered grid.
#[derive(Clone, Copy, Debug, PartialEq, Eq, Structural)]
pub struct LakeSampler {
    pub seed: u64,
    pub continental: bool,
}

/// A lake that passed every placement test.
#[derive(Clone, Copy, Debug, PartialEq, Eq, Structural)]
pub struct Lake {
    pub kind: LakeKind,
    pub center: IVec2,
    pub radius_x: i32,
    pub radius_z: i32,
    pub level: i32,
}

/// Where a grid cell would put its lake, before the terrain is consulted.
#[derive(Clone, Copy, Debug, PartialEq, Eq, Structural)]
pub struct LakeSite {
    pub kind: LakeKind,
    pub center: IVec2,
    pub radius_x: i32,
    pub radius_z: i32,
}

/// The lake site a grid cell rolls, if its roll admits one: the center is
/// jittered inside the cell away from its edges and the radii are picked from
/// the kind's range, all from one seeded hash of the cell.
pub open spec fn site_spec(seed: u64, kind: LakeKind, cell_x: i32, cell_z: i32) -> Option<
    LakeSite,
> {
    let base = hash_spec(seed ^ LAKE_SEED ^ kind.spec_salt(), cell_x, cell_z);
    let (minimum_radius, maximum_radius) = kind.spec_radius_range();
    let spacing = kind.spec_spacing();
    let margin = maximum_radius + 2;
    let jitter_span = spacing - margin * 2;
    let radius_span = maximum_radius - minimum_radius + 1;
    if base % 100 >= kind.spec_chance_percent() {
        None
    } else {
        Some(
            LakeSite {
                kind,
                center: IVec2 {
                    x: (cell_x * spacing + margin + ((base >> 8u64) % (jitter_span as u64)))
                        as i32,
                    y: (cell_z * spacing + margin + ((base >> 24u64) % (jitter_span as u64)))
                        as i32,
                },
                radius_x: (minimum_radius + ((base >> 40u64) % (radius_span as u64))) as i32,
                radius_z: (minimum_radius + ((base >> 48u64) % (radius_span as u64))) as i32,
            },
        )
    }
}

/// Grid cells whose lake sites stay inside the coordinate range.
pub open spec fn cell_in_range(cell: i32) -> bool {
    -0x0080_0000 <= cell <= 0x0080_0000
}

/// A site is kept clear of the spawn area.
pub open spec fn near_spawn(center: IVec2) -> bool {
    -SPAWN_CLEAR_RADIUS <= center.x <= SPAWN_CLEAR_RADIUS && -SPAWN_CLEAR_RADIUS <= center.y
        <= SPAWN_CLEAR_RADIUS
}

impl LakeSampler {
    /// Lakes over the rolling terrain of early worlds.
    pub fn new(seed: u64) -> (r: LakeSampler)
        ensures
            r == (LakeSampler { seed, continental: false }),
    {
        LakeSampler { seed, continental: false }
    }

    /// Lakes over continental terrain: never at or just above sea level.
    pub fn continental(seed: u64) -> (r: LakeSampler)
        ensures
            r == (LakeSampler { seed, continental: true }),
    {
        LakeSampler { seed, continental: true }
    }

    /// The site a grid cell rolls for a lake kind, unless the roll fails or
    /// the site lies in the spawn area.
    pub fn site(self, kind: LakeKind, cell_x: i32, cell_z: i32) -> (r: Option<LakeSite>)
        requires
            cell_in_range(cell_x),
            cell_in_range(cell_z),
        ensures
            r == (match site_spec(self.seed, kind, cell_x, cell_z) {
                Some(site) => if near_spawn(site.center) {
                    None
                } else {
                    Some(site)
                },
                None => None,
            }),
    {
        let base = hash(self.seed ^ LAKE_SEED ^ lake_salt(kind), cell_x, cell_z);
        if base % 100 >= kind.chance_percent() {
            return None;
        }
        let spacing = kind.spacing();
        let (minimum_radius, maximum_radius) = kind.radius_range();
        let margin = maximum_radius + 2;
        let jitter_span = spacing - margin * 2;
        let jitter_x = ((base >> 8) % (jitter_span as u64)) as i32;
        let jitter_z = ((base >> 24) % (jitter_span as u64)) as i32;
        assert(-0x0080_0000 * 160 <= cell_x * spacing <= 0x0080_0000 * 160) by (nonlinear_arith)
            requires
                -0x0080_0000 <= cell_x <= 0x0080_0000,
                0 < spacing <= 160,
        ;
        assert(-0x0080_0000 * 160 <= cell_z * spacing <= 0x0080_0000 * 160) by (nonlinear_arith)
            requires
                -0x0080_0000 <= cell_z <= 0x0080_0000,
                0 < spacing <= 160,
        ;
        let center = IVec2 {
            x: cell_x * spacing + margin + jitter_x,
            y: cell_z * spacing + margin + jitter_z,
        };
        if -SPAWN_CLEAR_RADIUS <= center.x && center.x <= SPAWN_CLEAR_RADIUS && -SPAWN_CLEAR_RADIUS
            <= center.y && center.y <= SPAWN_CLEAR_RADIUS {
            return None;
        }
        let radius_span = (maximum_radius - minimum_radius + 1) as u64;
        let radius_x = minimum_radius + ((base >> 40) % radius_span) as i32;
        let radius_z = minimum_radius + ((base >> 48) % radius_span) as i32;
        Some(LakeSite { kind, center, radius_x, radius_z })
    }
}

fn lake_salt(kind: LakeKind) -> (r: u64)
    ensures
        r == kind.spec_salt(),
{
    match kind {
        LakeKind::Water => WATER_SALT,
        LakeKind::Lava => LAVA_SALT,
    }
}

/// The nine terrain samples of a lake site: its center, the four ends of its
/// axes and four points halfway to its corners.
pub open spec fn sample_points_spec(site: LakeSite) -> Seq<IVec2> {
    let c = site.center;
    let rx = site.radius_x;
    let rz = site.radius_z;
    seq![
        c,
        IVec2 { x: (c.x + rx) as i32, y: c.y },
        IVec2 { x: (c.x - rx) as i32, y: c.y },
        IVec2 { x: c.x, y: (c.y + rz) as i32 },
        IVec2 { x: c.x, y: (c.y - rz) as i32 },
        IVec2 { x: (c.x + rx / 2) as i32, y: (c.y + rz / 2) as i32 },
        IVec2 { x: (c.x + rx / 2) as i32, y: (c.y - rz / 2) as i32 },
        IVec2 { x: (c.x - rx / 2) as i32, y: (c.y + rz / 2) as i32 },
        IVec2 { x: (c.x - rx / 2) as i32, y: (c.y - rz / 2) as i32 },
    ]
}

/// A site whose samples stay inside the coordinate range.
pub open spec fn site_in_range(site: LakeSite) -> bool {
    &&& -0x4000_0000 <= site.center.x <= 0x4000_0000
    &&& -0x4000_0000 <= site.center.y <= 0x4000_0000
    &&& 0 < site.radius_x <= 64
    &&& 0 < site.radius_z <= 64
}

/// Half of a non-negative radius, rounded down.
pub open spec fn half(value: i32) -> int {
    value as int / 2
}

impl LakeSite {
    /// The positions whose terrain height decides whether the lake is placed.
    pub fn sample_points(self) -> (r: Vec<IVec2>)
        requires
            site_in_range(self),
        ensures
            r@ == sample_points_spec(self),
    {
        let c = self.center;
        let rx = self.radius_x;
        let rz = self.radius_z;
        let hx = rx / 2;
        let hz = rz / 2;
        let mut points: Vec<IVec2> = Vec::new();
        points.push(c);
        points.push(IVec2 { x: c.x + rx, y: c.y });
        points.push(IVec2 { x: c.x - rx, y: c.y });
        points.push(IVec2 { x: c.x, y: c.y + rz });
        points.push(IVec2 { x: c.x, y: c.y - rz });
        points.push(IVec2 { x: c.x + hx, y: c.y + hz });
        points.push(IVec2 { x: c.x + hx, y: c.y - hz });
        points.push(IVec2 { x: c.x - hx, y: c.y + hz });
        points.push(IVec2 { x: c.x - hx, y: c.y - hz });
        assert(points@ =~= sample_points_spec(self));
        points
    }
}

/// Lowest of the sampled heights.
pub open spec fn seq_min(heights: Seq<i32>) -> int
    decreases heights.len(),
{
    if heights.len() == 0 {
        i32::MAX as int
    } else {
        let rest = seq_min(heights.drop_last());
        if heights.last() < rest {
            heights.last() as int
        } else {
            rest
        }
    }
}

/// Highest of the sampled heights.
pub open spec fn seq_max(heights: Seq<i32>) -> int
    decreases heights.len(),
{
    if heights.len() == 0 {
        i32::MIN as int
    } else {
        let rest = seq_max(heights.drop_last());
        if heights.last() > rest {
            heights.last() as int
        } else {
            rest
        }
    }
}

proof fn lemma_min_max_bounds(heights: Seq<i32>)
    ensures
        i32::MIN <= seq_min(heights) <= i32::MAX,
        i32::MIN <= seq_max(heights) <= i32::MAX,
        heights.len() > 0 ==> seq_min(heights) <= seq_max(heights),
    decreases heights.len(),
{
    if heights.len() > 0 {
        lemma_min_max_bounds(heights.drop_last());
        if heights.len() > 1 {
        }
    }
}

/// The lowest and highest of some heights are among them and bound them all.
proof fn lemma_seq_extremes(heights: Seq<i32>)
    requires
        heights.len() > 0,
    ensures
        forall|i: int| 0 <= i < heights.len() ==> seq_min(heights) <= #[trigger] heights[i] <= seq_max(heights),
        exists|i: int| 0 <= i < heights.len() && #[trigger] heights[i] == seq_min(heights),
        exists|i: int| 0 <= i < heights.len() && #[trigger] heights[i] == seq_max(heights),
    decreases heights.len(),
{
    let n = heights.len() as int;
    let rest = heights.drop_last();
    if n == 1 {
        assert(heights[0] == heights.last());
    } else {
        lemma_seq_extremes(rest);
        assert forall|i: int| 0 <= i < n implies seq_min(heights) <= #[trigger] heights[i] <= seq_max(heights) by {
            if i < n - 1 {
                assert(heights[i] == rest[i]);
            }
        }
        let a = choose|i: int| 0 <= i < rest.len() && #[trigger] rest[i] == seq_min(rest);
        let b = choose|i: int| 0 <= i < rest.len() && #[trigger] rest[i] == seq_max(rest);
        assert(heights[a] == rest[a]);
        assert(heights[b] == rest[b]);
        assert(heights[n - 1] == heights.last());
    }
}

/// A lake stands in a hollow: an accepted lake's liquid surface lies below
/// the ground at every sample point, exactly one block below the lowest,
/// and keeps its site's kind, center and radii. A site is accepted exactly
/// when no two samples differ by more than the allowed variation and, for
/// continental lakes, every sample lies more than one block above sea level.
pub proof fn law_lake_level_lies_below_its_ground(
    continental: bool,
    site: LakeSite,
    heights: Seq<i32>,
)
    requires
        heights.len() > 0,
        forall|i: int| 0 <= i < heights.len() ==> #[trigger] heights[i] > i32::MIN,
    ensures
        accept_spec(continental, site, heights) matches Some(lake) ==> {
            &&& forall|i: int| 0 <= i < heights.len() ==> lake.level < #[trigger] heights[i]
            &&& exists|i: int| 0 <= i < heights.len() && lake.level == #[trigger] heights[i] - 1
            &&& lake.kind == site.kind
            &&& lake.center == site.center
            &&& lake.radius_x == site.radius_x
            &&& lake.radius_z == site.radius_z
        },
        (accept_spec(continental, site, heights) is Some) == ((forall|i: int, j: int|
            0 <= i < heights.len() && 0 <= j < heights.len() ==> #[trigger] heights[i]
                - #[trigger] heights[j] <= MAX_TERRAIN_VARIATION) && (continental ==> forall|i: int|
            0 <= i < heights.len() ==> #[trigger] heights[i] > SEA_LEVEL + 1)),
{
    lemma_seq_extremes(heights);
    let low = choose|i: int| 0 <= i < heights.len() && #[trigger] heights[i] == seq_min(heights);
    let high = choose|i: int| 0 <= i < heights.len() && #[trigger] heights[i] == seq_max(heights);
    assert(heights[low] > i32::MIN);
    if accept_spec(continental, site, heights) is Some {
        assert(heights[low] - 1 == seq_min(heights) - 1);
    } else {
        if seq_max(heights) - seq_min(heights) > MAX_TERRAIN_VARIATION {
            assert(heights[high] - heights[low] > MAX_TERRAIN_VARIATION);
        } else {
            assert(heights[low] <= SEA_LEVEL + 1);
        }
    }
}

/// Lowest and highest of a list of heights.
pub fn height_extent(heights: &Vec<i32>) -> (r: (i32, i32))
    ensures
        r.0 == seq_min(heights@),
        r.1 == seq_max(heights@),
{
    let mut minimum = i32::MAX;
    let mut maximum = i32::MIN;
    let mut i: usize = 0;
    while i < heights.len()
        invariant
            i <= heights@.len(),
            minimum == seq_min(heights@.take(i as int)),
            maximum == seq_max(heights@.take(i as int)),
        decreases heights@.len() - i,
    {
        assert(heights@.take(i as int + 1).drop_last() =~= heights@.take(i as int));
        let h = heights[i];
        if h < minimum {
            minimum = h;
        }
        if h > maximum {
            maximum = h;
        }
        i = i + 1;
    }
    assert(heights@.take(heights@.len() as int) =~= heights@);
    (minimum, maximum)
}

/// The lake a site becomes given the terrain heights at its sample points:
/// none when the terrain varies too much, or, for continental lakes, when it
/// comes too close to sea level; otherwise a lake whose liquid surface lies
/// one block below the lowest sample.
pub open spec fn accept_spec(continental: bool, site: LakeSite, heights: Seq<i32>) -> Option<Lake> {
    let minimum = seq_min(heights);
    let maximum = seq_max(heights);
    if maximum - minimum > MAX_TERRAIN_VARIATION {
        None
    } else if continental && minimum <= SEA_LEVEL + 1 {
        None
    } else {
        Some(
            Lake {
                kind: site.kind,
                center: site.center,
                radius_x: site.radius_x,
                radius_z: site.radius_z,
                level: (minimum - 1) as i32,
            },
        )
    }
}

impl LakeSampler {
    /// Decides a lake site against the terrain heights of its sample points.
    pub fn accept(self, site: LakeSite, heights: &Vec<i32>) -> (r: Option<Lake>)
        requires
            heights@.len() > 0,
            seq_min(heights@) > i32::MIN,
        ensures
            r == accept_spec(self.continental, site, heights@),
    {
        proof {
            lemma_min_max_bounds(heights@);
        }
        let (minimum, maximum) = height_extent(heights);
        if maximum as i64 - minimum as i64 > MAX_TERRAIN_VARIATION as i64 {
            return None;
        }
        if self.continental && minimum <= SEA_LEVEL + 1 {
            return None;
        }
        Some(
            Lake {
                kind: site.kind,
                center: site.center,
                radius_x: site.radius_x,
                radius_z: site.radius_z,
                level: minimum - 1,
            },
        )
    }
}

impl LakeColumn {
    pub open spec fn spec_water_bottom(self) -> Option<i32> {
        match self {
            LakeColumn::Basin { kind: LakeKind::Water, bottom, .. } => Some(bottom),
            _ => None,
        }
    }

    /// The floor block of a water basin.
    pub fn water_bottom(self) -> (r: Option<i32>)
        ensures
            r == self.spec_water_bottom(),
    {
        match self {
            LakeColumn::Basin { kind: LakeKind::Water, bottom, .. } => Some(bottom),
            _ => None,
        }
    }

    /// The block a lake puts at height `y` over the terrain block `terrain`.
    pub open spec fn spec_block(self, y: i32, terrain: BlockId) -> BlockId {
        match self {
            LakeColumn::Empty => terrain,
            LakeColumn::Basin { kind, level, bottom, terrain_surface } => {
                if y > level && y <= terrain_surface {
                    BlockId::AIR
                } else if y > bottom && y <= level {
                    kind.spec_block()
                } else if y == bottom || (kind == LakeKind::Lava && y == bottom - 1) {
                    match kind {
                        LakeKind::Water => BlockId::DIRT,
                        LakeKind::Lava => BlockId::STONE,
                    }
                } else {
                    terrain
                }
            },
            LakeColumn::LavaRim { terrain_surface } => {
                if terrain_surface - 2 <= y && y <= terrain_surface {
                    BlockId::STONE
                } else {
                    terrain
                }
            },
        }
    }

    /// A basin clears the terrain above its liquid, fills up to its level and
    /// lines its floor (dirt under water, two stone layers under lava); a lava
    /// rim turns the top three terrain blocks to stone.
    pub fn block(self, y: i32, terrain: BlockId) -> (r: BlockId)
        ensures
            r == self.spec_block(y, terrain),
    {
        match self {
            LakeColumn::Empty => terrain,
            LakeColumn::Basin { kind, level, bottom, terrain_surface } => {
                if y > level && y <= terrain_surface {
                    BlockId::AIR
                } else if y > bottom && y <= level {
                    kind.block()
                } else if y as i64 == bottom as i64 || (kind == LakeKind::Lava && y as i64
                    == bottom as i64 - 1) {
                    match kind {
                        LakeKind::Water => BlockId::DIRT,
                        LakeKind::Lava => BlockId::STONE,
                    }
                } else {
                    terrain
                }
            },
            LakeColumn::LavaRim { terrain_surface } => {
                if terrain_surface as i64 - 2 <= y as i64 && y <= terrain_surface {
                    BlockId::STONE
                } else {
                    terrain
                }
            },
        }
    }

    pub open spec fn spec_direct_sky_floor(self, terrain_surface: i32) -> int {
        match self {
            LakeColumn::Basin { bottom, .. } => bottom + 1,
            _ => terrain_surface as int,
        }
    }

    /// The lowest block that sees the sky directly: just above a basin's floor,
    /// the terrain surface otherwise.
    pub fn direct_sky_floor(self, terrain_surface: i32) -> (r: i32)
        requires
            self matches LakeColumn::Basin { bottom, .. } ==> bottom < i32::MAX,
        ensures
            r == self.spec_direct_sky_floor(terrain_surface),
    {
        match self {
            LakeColumn::Basin { bottom, .. } => bottom + 1,
            _ => terrain_surface,
        }
    }

    /// The kind of the basin the column belongs to.
    pub fn kind(self) -> (r: Option<LakeKind>)
        ensures
            r == (match self {
                LakeColumn::Basin { kind, .. } => Some(kind),
                _ => None,
            }),
    {
        match self {
            LakeColumn::Basin { kind, .. } => Some(kind),
            _ => None,
        }
    }
}

} // verus!
