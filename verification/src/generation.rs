use vstd::prelude::*;

use crate::big_lakes::BigLakeColumn;
use crate::blocks::BlockId;
use crate::caves::{ravine_light_spec, ravine_skylight};
use crate::chunk::{
    fluid_candidates, in_chunk, index_local, lemma_index_local_roundtrip, local_index, Chunk,
};
use crate::coordinates::{chunk_of, global_from_local, global_of, split_global};
use crate::flags::ChunkFlags;
use crate::generator::{floor_fits, version_of, world_floor_spec, GeneratorKind, WorldGenerator};
use crate::geometry::{IVec3, UVec3};
use crate::lakes::LakeColumn;
use crate::rivers::RiverColumn;
use crate::sediment::SedimentColumn;
use crate::terrain::SEA_LEVEL;
use crate::trees::{GeneratedTree, CANOPY_RADIUS};
use crate::underground::{
    chamber_block_spec, deposit_block_spec, first_containing, UndergroundDeposit,
    UndergroundDepositSampler,
    UndergroundLake, UndergroundLakeSampler,
};
use crate::world::chunk_pos_in_range;

verus! {

/// What the noise fields decided for one column of a chunk: the terrain
/// surface and the column of each surface feature that reaches it.
#[derive(Clone, Copy, Debug)]
pub struct ColumnSample {
    pub surface: i32,
    pub sediment: Option<SedimentColumn>,
    pub big_lake: Option<BigLakeColumn>,
    pub river: Option<RiverColumn>,
    pub lake: Option<LakeColumn>,
}

/// What the noise fields decided for one cell of a chunk: whether the cave
/// noise carves it, whether the column's ravine covers its height, whether it
/// lies inside the outline of the chunk's underground chamber, and, for each
/// pocket of the chunk, whether the pocket's outline contains it.
#[derive(Clone, Debug)]
pub struct CellSample {
    pub cave_air: bool,
    pub in_ravine: bool,
    pub in_chamber: bool,
    pub in_deposits: Vec<bool>,
}

/// Everything chunk generation reads besides the generator: the samples of
/// the 256 columns (x-major, then z) and of the 4096 cells (in cell order),
/// the chunk's underground chamber, its pockets and the trees that reach it.
#[derive(Clone, Debug)]
pub struct ChunkSamples {
    pub columns: Vec<ColumnSample>,
    pub cells: Vec<CellSample>,
    pub underground_lake: Option<UndergroundLake>,
    pub deposits: Vec<UndergroundDeposit>,
    pub trees: Vec<GeneratedTree>,
}

impl ChunkSamples {
    /// One sample per column and per cell, and one pocket flag per pocket in every cell.
    pub open spec fn wf(self) -> bool {
        &&& self.columns@.len() == 256
        &&& self.cells@.len() == 4096
        &&& forall|i: int|
            0 <= i < 4096 ==> (#[trigger] self.cells@[i]).in_deposits@.len()
                == self.deposits@.len()
    }
}

impl ChunkSamples {
    /// Samples of level terrain: every column at `surface` without surface
    /// features, no cell carved, no chamber, no pockets and no trees.
    pub fn level(surface: i32) -> (r: ChunkSamples)
        ensures
            r.wf(),
            forall|i: int|
                0 <= i < 256 ==> #[trigger] r.columns@[i] == (ColumnSample {
                    surface,
                    sediment: None,
                    big_lake: None,
                    river: None,
                    lake: None,
                }),
            forall|i: int|
                0 <= i < 4096 ==> !(#[trigger] r.cells@[i]).cave_air && !r.cells@[i].in_ravine
                    && !r.cells@[i].in_chamber,
            r.underground_lake is None,
            r.deposits@.len() == 0,
            r.trees@.len() == 0,
    {
        let mut columns: Vec<ColumnSample> = Vec::new();
        let mut i: usize = 0;
        while i < 256
            invariant
                i <= 256,
                columns@.len() == i,
                forall|j: int|
                    0 <= j < i ==> #[trigger] columns@[j] == (ColumnSample {
                        surface,
                        sediment: None,
                        big_lake: None,
                        river: None,
                        lake: None,
                    }),
            decreases 256 - i,
        {
            columns.push(ColumnSample { surface, sediment: None, big_lake: None, river: None, lake: None });
            i = i + 1;
        }
        let mut cells: Vec<CellSample> = Vec::new();
        let mut j: usize = 0;
        while j < 4096
            invariant
                j <= 4096,
                cells@.len() == j,
                forall|k: int|
                    0 <= k < j ==> !(#[trigger] cells@[k]).cave_air && !cells@[k].in_ravine
                        && !cells@[k].in_chamber && cells@[k].in_deposits@.len() == 0,
            decreases 4096 - j,
        {
            cells.push(CellSample { cave_air: false, in_ravine: false, in_chamber: false, in_deposits: Vec::new() });
            j = j + 1;
        }
        ChunkSamples { columns, cells, underground_lake: None, deposits: Vec::new(), trees: Vec::new() }
    }
}

/// The generator's version includes the feature introduced at `version`.
pub open spec fn has_feature(generator: WorldGenerator, version: int) -> bool {
    version_of(generator.spec_kind()) >= version
}

/// Sediments apply from the sixth version on.
pub open spec fn active_sediment(generator: WorldGenerator, column: ColumnSample) -> Option<
    SedimentColumn,
> {
    if has_feature(generator, 6) {
        column.sediment
    } else {
        None
    }
}

/// Big lakes apply from the eighth version on.
pub open spec fn active_big_lake(generator: WorldGenerator, column: ColumnSample) -> Option<
    BigLakeColumn,
> {
    if has_feature(generator, 8) {
        column.big_lake
    } else {
        None
    }
}

/// Rivers apply from the eighth version on, and only where no big lake or island lies.
pub open spec fn active_river(generator: WorldGenerator, column: ColumnSample) -> Option<
    RiverColumn,
> {
    let open = match active_big_lake(generator, column) {
        None => true,
        Some(BigLakeColumn::Empty) => true,
        Some(_) => false,
    };
    if has_feature(generator, 8) && open {
        column.river
    } else {
        None
    }
}

/// Surface lakes apply from the third version on.
pub open spec fn active_lake(generator: WorldGenerator, column: ColumnSample) -> Option<
    LakeColumn,
> {
    if has_feature(generator, 3) {
        column.lake
    } else {
        None
    }
}

/// A water body's floor takes the column's lake-floor sediment.
pub open spec fn lined(
    sediment: Option<SedimentColumn>,
    bottom: Option<i32>,
    y: i32,
    block: BlockId,
) -> BlockId {
    match sediment {
        Some(layer) => match bottom {
            Some(bottom) => layer.spec_lake_block(y, bottom, block),
            None => block,
        },
        None => block,
    }
}

/// Caves carve solid ground into air; in ocean columns ravines stay filled.
pub open spec fn carved(
    generator: WorldGenerator,
    surface: i32,
    cell: CellSample,
    block: BlockId,
) -> BlockId {
    if has_feature(generator, 2) && block != BlockId::AIR && !block.spec_is_liquid() && (surface
        >= SEA_LEVEL || !cell.in_ravine) && cell.cave_air {
        BlockId::AIR
    } else {
        block
    }
}

/// The block the terrain passes leave at `global`, in their order: layered
/// terrain, surface sediments, underground pockets, caves, big lakes,
/// rivers, surface lakes (each lined with the floor sediment) and
/// underground chambers.
#[verifier::opaque]
pub open spec fn generated_block(
    generator: WorldGenerator,
    column: ColumnSample,
    cell: CellSample,
    chamber: Option<UndergroundLake>,
    deposits: Seq<UndergroundDeposit>,
    global: IVec3,
) -> BlockId {
    let y = global.y;
    let surface = column.surface;
    let sediment = active_sediment(generator, column);
    let terrain = generator.spec_terrain_block(
        y,
        surface,
        generator.spec_dirt_depth(global.x, global.z),
    );
    let layered = match sediment {
        Some(layer) => layer.spec_terrain_block(y, surface, terrain),
        None => terrain,
    };
    let pocketed = if has_feature(generator, 7) {
        deposit_block_spec(y, surface, layered, deposits, cell.in_deposits@)
    } else {
        layered
    };
    let hollowed = carved(generator, surface, cell, pocketed);
    let after_big_lake = match active_big_lake(generator, column) {
        Some(lake) => lined(sediment, lake.spec_bottom(), y, lake.spec_block(y, surface, hollowed)),
        None => hollowed,
    };
    let after_river = match active_river(generator, column) {
        Some(river) => lined(sediment, river.spec_bottom(), y, river.spec_block(y, after_big_lake)),
        None => after_big_lake,
    };
    let after_lake = match active_lake(generator, column) {
        Some(lake) => lined(sediment, lake.spec_water_bottom(), y, lake.spec_block(y, after_river)),
        None => after_river,
    };
    if has_feature(generator, 5) {
        chamber_block_spec(
            world_floor_spec(generator.spec_dimensions()) as i32,
            global,
            surface,
            after_lake,
            chamber,
            cell.in_chamber,
        )
    } else {
        after_lake
    }
}

/// The lowest block of a column that sees the sky: the terrain surface, or
/// just above the floor of a lake, big lake or river in the column.
#[verifier::opaque]
pub open spec fn sky_floor(generator: WorldGenerator, column: ColumnSample) -> int {
    let surface = column.surface;
    let lake = match active_lake(generator, column) {
        Some(lake) => lake.spec_direct_sky_floor(surface),
        None => surface as int,
    };
    let big_lake = match active_big_lake(generator, column) {
        Some(lake) => lake.spec_direct_sky_floor(surface),
        None => surface as int,
    };
    let river = match active_river(generator, column) {
        Some(river) => river.spec_direct_sky_floor(surface),
        None => surface as int,
    };
    let lowest = if lake < big_lake {
        lake
    } else {
        big_lake
    };
    if river < lowest {
        river
    } else {
        lowest
    }
}

/// Ravines of land columns let in skylight.
pub open spec fn ravine_light(
    generator: WorldGenerator,
    column: ColumnSample,
    cell: CellSample,
    y: i32,
) -> Option<u8> {
    if has_feature(generator, 2) && column.surface >= SEA_LEVEL && cell.in_ravine {
        Some(ravine_light_spec(column.surface, y) as u8)
    } else {
        None
    }
}

/// Full skylight at and above the sky floor, ravine light below it, darkness otherwise.
pub open spec fn generated_skylight(
    generator: WorldGenerator,
    column: ColumnSample,
    cell: CellSample,
    y: i32,
) -> u8 {
    if y >= sky_floor(generator, column) {
        15
    } else {
        match ravine_light(generator, column, cell, y) {
            Some(level) => level,
            None => 0,
        }
    }
}

/// The column sample of a cell index.
pub open spec fn column_of(index: int) -> int {
    (index / 256) * 16 + index % 16
}

/// The block position of a cell of a chunk.
pub open spec fn cell_global(position: IVec3, index: int) -> IVec3 {
    global_of(position, index_local(index))
}

/// The terrain block of a cell, before trees.
pub open spec fn terrain_cell(
    generator: WorldGenerator,
    position: IVec3,
    samples: ChunkSamples,
    index: int,
) -> BlockId {
    generated_block(
        generator,
        samples.columns@[column_of(index)],
        samples.cells@[index],
        samples.underground_lake,
        samples.deposits@,
        cell_global(position, index),
    )
}

/// The skylight of a cell, before trees.
pub open spec fn terrain_light(
    generator: WorldGenerator,
    position: IVec3,
    samples: ChunkSamples,
    index: int,
) -> u8 {
    generated_skylight(
        generator,
        samples.columns@[column_of(index)],
        samples.cells@[index],
        cell_global(position, index).y,
    )
}

/// A cell lit by a ravine with more than the faintest light.
pub open spec fn lights_cell(
    generator: WorldGenerator,
    position: IVec3,
    samples: ChunkSamples,
    index: int,
) -> bool {
    let column = samples.columns@[column_of(index)];
    let y = cell_global(position, index).y;
    &&& y < sky_floor(generator, column)
    &&& ravine_light(generator, column, samples.cells@[index], y) matches Some(level)
    &&& level > 1
}

/// A cell whose terrain block is grass.
pub open spec fn grows_grass(
    generator: WorldGenerator,
    position: IVec3,
    samples: ChunkSamples,
    index: int,
) -> bool {
    terrain_cell(generator, position, samples, index) == BlockId::GRASS
}

/// A cell whose terrain block is a liquid.
pub open spec fn holds_liquid(
    generator: WorldGenerator,
    position: IVec3,
    samples: ChunkSamples,
    index: int,
) -> bool {
    terrain_cell(generator, position, samples, index).spec_is_liquid()
}

/// A position inside the bounding box of a well-formed tree.
pub open spec fn in_tree_box(tree: GeneratedTree, p: IVec3) -> bool {
    let ground = tree.spec_ground();
    let shape = tree.spec_shape();
    &&& tree.wf()
    &&& ground.x - CANOPY_RADIUS <= p.x <= ground.x + CANOPY_RADIUS
    &&& ground.y + 1 <= p.y <= ground.y + shape.spec_trunk_height() + shape.spec_canopy_height()
    &&& ground.z - CANOPY_RADIUS <= p.z <= ground.z + CANOPY_RADIUS
}

/// One tree over a cell's block and skylight: its log or leaves replace the
/// block, but leaves never replace a log; logs below the trunk top darken the cell.
pub open spec fn plant(tree: GeneratedTree, block: BlockId, light: u8, p: IVec3) -> (BlockId, u8) {
    if !in_tree_box(tree, p) {
        (block, light)
    } else {
        match tree.spec_block_at(p) {
            Some(placed) => if placed == BlockId::LEAVES && block == BlockId::WOOD_LOG {
                (block, light)
            } else if placed == BlockId::WOOD_LOG && p.y < tree.spec_ground().y
                + tree.spec_shape().spec_trunk_height() {
                (placed, 0u8)
            } else {
                (placed, light)
            },
            None => (block, light),
        }
    }
}

/// The first `n` trees, in order, over a cell's block and skylight.
pub open spec fn planted(trees: Seq<GeneratedTree>, n: nat, block: BlockId, light: u8, p: IVec3) -> (
    BlockId,
    u8,
)
    decreases n,
{
    if n == 0 {
        (block, light)
    } else {
        let earlier = planted(trees, (n - 1) as nat, block, light, p);
        plant(trees[n - 1], earlier.0, earlier.1, p)
    }
}

/// The trees generation places: those of the samples, in the ninth version only.
pub open spec fn placed_trees(generator: WorldGenerator, samples: ChunkSamples) -> Seq<
    GeneratedTree,
> {
    if has_feature(generator, 9) {
        samples.trees@
    } else {
        Seq::empty()
    }
}

/// The final block and skylight of a cell.
pub open spec fn generated_cell(
    generator: WorldGenerator,
    position: IVec3,
    samples: ChunkSamples,
    index: int,
) -> (BlockId, u8) {
    let trees = placed_trees(generator, samples);
    planted(
        trees,
        trees.len(),
        terrain_cell(generator, position, samples, index),
        terrain_light(generator, position, samples, index),
        cell_global(position, index),
    )
}

/// Sets `mask` when `condition` holds.
pub open spec fn with_flag(bits: u8, condition: bool, mask: u8) -> u8 {
    if condition {
        bits | mask
    } else {
        bits
    }
}

/// The flags of a generated chunk: loaded and dirty, with light sources when
/// a ravine lights a cell, grass ticks when the terrain grows grass, and
/// fluid sources when it holds a liquid.
pub open spec fn generated_flags(light_sources: bool, grass: bool, fluids: bool) -> u8 {
    with_flag(
        with_flag(
            with_flag(ChunkFlags::LOADED | ChunkFlags::DIRTY, light_sources, ChunkFlags::LIGHT_SOURCES),
            grass,
            ChunkFlags::GRASS_TICKS,
        ),
        fluids,
        ChunkFlags::FLUID_SOURCES,
    )
}

/// `chunk` is the chunk generation produces at `position` from `samples`.
pub open spec fn is_generated_chunk(
    generator: WorldGenerator,
    position: IVec3,
    samples: ChunkSamples,
    chunk: Chunk,
) -> bool {
    let fluids = exists|i: int| 0 <= i < 4096 && #[trigger] holds_liquid(generator, position, samples, i);
    let grass = exists|i: int| 0 <= i < 4096 && #[trigger] grows_grass(generator, position, samples, i);
    let light = exists|i: int| 0 <= i < 4096 && #[trigger] lights_cell(generator, position, samples, i);
    &&& chunk.wf()
    &&& forall|i: int|
        0 <= i < 4096 ==> #[trigger] chunk.blocks_view()[i] == generated_cell(
            generator,
            position,
            samples,
            i,
        ).0
    &&& forall|i: int|
        0 <= i < 4096 ==> #[trigger] chunk.skylight_view()[i] == generated_cell(
            generator,
            position,
            samples,
            i,
        ).1
    &&& chunk.flags_view() == generated_flags(light, grass, fluids)
    &&& chunk.candidates_view() == (if fluids {
        fluid_candidates(chunk.blocks_view())
    } else {
        Seq::empty()
    })
}

/// A tree puts a log or leaves on the block at `p`.
pub open spec fn covers(tree: GeneratedTree, p: IVec3) -> bool {
    in_tree_box(tree, p) && tree.spec_block_at(p) is Some
}

/// No placed tree covers a cell whose terrain block is grass or a liquid.
pub open spec fn trees_spare_grass_and_liquids(
    generator: WorldGenerator,
    position: IVec3,
    samples: ChunkSamples,
) -> bool {
    forall|t: int, i: int|
        0 <= t < placed_trees(generator, samples).len() && 0 <= i < 4096 && #[trigger] covers(
            placed_trees(generator, samples)[t],
            cell_global(position, i),
        ) ==> terrain_cell(generator, position, samples, i) != BlockId::GRASS
            && !terrain_cell(generator, position, samples, i).spec_is_liquid()
}

/// A chunk of 4096 cells holds a grass block.
pub open spec fn holds_grass(blocks: Seq<BlockId>) -> bool {
    exists|i: int| 0 <= i < 4096 && #[trigger] blocks[i] == BlockId::GRASS
}

/// A chunk of 4096 cells holds a liquid block.
pub open spec fn holds_a_liquid(blocks: Seq<BlockId>) -> bool {
    exists|i: int| 0 <= i < 4096 && (#[trigger] blocks[i]).spec_is_liquid()
}

/// Trees that cover no cell leave its block as it is.
proof fn lemma_planted_untouched(
    trees: Seq<GeneratedTree>,
    n: nat,
    block: BlockId,
    light: u8,
    p: IVec3,
)
    requires
        n <= trees.len(),
        forall|t: int| 0 <= t < n ==> !#[trigger] covers(trees[t], p),
    ensures
        planted(trees, n, block, light, p).0 == block,
    decreases n,
{
    if n > 0 {
        lemma_planted_untouched(trees, (n - 1) as nat, block, light, p);
        assert(!covers(trees[n - 1], p));
    }
}

/// Where trees spare grass and liquids, the chunk holds grass, or a liquid,
/// exactly where its terrain does.
proof fn lemma_flags_follow_blocks(
    generator: WorldGenerator,
    position: IVec3,
    samples: ChunkSamples,
    chunk: Chunk,
)
    requires
        is_generated_chunk(generator, position, samples, chunk),
        trees_spare_grass_and_liquids(generator, position, samples),
    ensures
        holds_grass(chunk.blocks_view()) == exists|i: int|
            0 <= i < 4096 && #[trigger] grows_grass(generator, position, samples, i),
        holds_a_liquid(chunk.blocks_view()) == exists|i: int|
            0 <= i < 4096 && #[trigger] holds_liquid(generator, position, samples, i),
{
    let trees = placed_trees(generator, samples);
    assert forall|i: int| 0 <= i < 4096 implies {
        let terrain = terrain_cell(generator, position, samples, i);
        let block = #[trigger] chunk.blocks_view()[i];
        &&& (block == BlockId::GRASS <==> terrain == BlockId::GRASS)
        &&& (block.spec_is_liquid() <==> terrain.spec_is_liquid())
    } by {
        let terrain = terrain_cell(generator, position, samples, i);
        let light = terrain_light(generator, position, samples, i);
        let p = cell_global(position, i);
        assert(chunk.blocks_view()[i] == generated_cell(generator, position, samples, i).0);
        lemma_planted_block(trees, trees.len(), terrain, light, p);
        if terrain == BlockId::GRASS || terrain.spec_is_liquid() {
            assert forall|t: int| 0 <= t < trees.len() implies !#[trigger] covers(trees[t], p) by {
                if covers(trees[t], p) {
                    assert(covers(placed_trees(generator, samples)[t], cell_global(position, i)));
                }
            }
            lemma_planted_untouched(trees, trees.len(), terrain, light, p);
        }
    }
    if holds_grass(chunk.blocks_view()) {
        let i = choose|i: int| 0 <= i < 4096 && #[trigger] chunk.blocks_view()[i] == BlockId::GRASS;
        assert(grows_grass(generator, position, samples, i));
    }
    if exists|i: int| 0 <= i < 4096 && #[trigger] grows_grass(generator, position, samples, i) {
        let i = choose|i: int| 0 <= i < 4096 && #[trigger] grows_grass(generator, position, samples, i);
        assert(chunk.blocks_view()[i] == BlockId::GRASS);
    }
    if holds_a_liquid(chunk.blocks_view()) {
        let i = choose|i: int| 0 <= i < 4096 && (#[trigger] chunk.blocks_view()[i]).spec_is_liquid();
        assert(holds_liquid(generator, position, samples, i));
    }
    if exists|i: int| 0 <= i < 4096 && #[trigger] holds_liquid(generator, position, samples, i) {
        let i = choose|i: int| 0 <= i < 4096 && #[trigger] holds_liquid(generator, position, samples, i);
        assert(chunk.blocks_view()[i].spec_is_liquid());
    }
}

/// Which passes the generator's version runs, with the samplers the cell
/// passes call.
struct Passes {
    caves: bool,
    lakes: bool,
    chambers: Option<UndergroundLakeSampler>,
    sediments: bool,
    deposits: Option<UndergroundDepositSampler>,
    water_bodies: bool,
    trees: bool,
}

impl Passes {
    spec fn describes(self, generator: WorldGenerator) -> bool {
        &&& self.caves == has_feature(generator, 2)
        &&& self.lakes == has_feature(generator, 3)
        &&& (self.chambers is Some <==> has_feature(generator, 5))
        &&& (self.chambers matches Some(sampler) ==> sampler.world_floor == world_floor_spec(
            generator.spec_dimensions(),
        ) as i32)
        &&& self.sediments == has_feature(generator, 6)
        &&& (self.deposits is Some <==> has_feature(generator, 7))
        &&& self.water_bodies == has_feature(generator, 8)
        &&& self.trees == has_feature(generator, 9)
    }
}

impl WorldGenerator {
    fn passes(self) -> (r: Passes)
        requires
            floor_fits(self.spec_dimensions()),
        ensures
            r.describes(self),
    {
        Passes {
            caves: self.cave_sampler().is_some(),
            lakes: self.lake_sampler().is_some(),
            chambers: self.underground_lake_sampler(),
            sediments: self.sediment_sampler().is_some(),
            deposits: self.underground_deposit_sampler(),
            water_bodies: self.big_lake_sampler().is_some(),
            trees: self.tree_biomes().is_some(),
        }
    }

    /// The terrain block of one cell.
    fn cell_block(
        self,
        passes: &Passes,
        column: ColumnSample,
        cell: &CellSample,
        chamber: Option<UndergroundLake>,
        deposits: &Vec<UndergroundDeposit>,
        global: IVec3,
    ) -> (r: BlockId)
        requires
            passes.describes(self),
            cell.in_deposits@.len() == deposits@.len(),
        ensures
            r == generated_block(self, column, *cell, chamber, deposits@, global),
    {
        reveal(generated_block);
        let y = global.y;
        let surface = column.surface;
        let sediment = if passes.sediments {
            column.sediment
        } else {
            None
        };
        let mut block = self.terrain_block(y, surface, self.dirt_depth(global.x, global.z));
        if let Some(layer) = sediment {
            block = layer.terrain_block(y, surface, block);
        }
        if let Some(sampler) = passes.deposits {
            block = sampler.block_from_deposits(y, surface, block, deposits, &cell.in_deposits);
        }
        if passes.caves {
            let can_carve = surface >= SEA_LEVEL || !cell.in_ravine;
            if block != BlockId::AIR && !block.is_liquid() && can_carve && cell.cave_air {
                block = BlockId::AIR;
            }
        }
        let big_lake = if passes.water_bodies {
            column.big_lake
        } else {
            None
        };
        let river_open = match big_lake {
            None => true,
            Some(BigLakeColumn::Empty) => true,
            Some(_) => false,
        };
        let river = if passes.water_bodies && river_open {
            column.river
        } else {
            None
        };
        let lake = if passes.lakes {
            column.lake
        } else {
            None
        };
        if let Some(lake) = big_lake {
            block = lake.block(y, surface, block);
            if let (Some(layer), Some(bottom)) = (sediment, lake.bottom()) {
                block = layer.lake_block(y, bottom, block);
            }
        }
        if let Some(river) = river {
            block = river.block(y, block);
            if let (Some(layer), Some(bottom)) = (sediment, river.bottom()) {
                block = layer.lake_block(y, bottom, block);
            }
        }
        if let Some(lake) = lake {
            block = lake.block(y, block);
            if let (Some(layer), Some(bottom)) = (sediment, lake.water_bottom()) {
                block = layer.lake_block(y, bottom, block);
            }
        }
        if let Some(sampler) = passes.chambers {
            block = sampler.block_from_lake(global, surface, block, chamber, cell.in_chamber);
        }
        block
    }

    /// The lowest block of a column that sees the sky.
    fn column_sky_floor(self, passes: &Passes, column: ColumnSample) -> (r: i64)
        requires
            passes.describes(self),
        ensures
            r == sky_floor(self, column),
    {
        reveal(sky_floor);
        let surface = column.surface as i64;
        let lake = match column.lake {
            Some(LakeColumn::Basin { bottom, .. }) if passes.lakes => bottom as i64 + 1,
            _ => surface,
        };
        let big_lake_column = if passes.water_bodies {
            column.big_lake
        } else {
            None
        };
        let big_lake = match big_lake_column {
            Some(BigLakeColumn::Basin { bottom, .. }) => bottom as i64 + 1,
            _ => surface,
        };
        let river_open = match big_lake_column {
            None => true,
            Some(BigLakeColumn::Empty) => true,
            Some(_) => false,
        };
        let river = match column.river {
            Some(RiverColumn::Channel { bottom, .. }) if passes.water_bodies && river_open => bottom
                as i64 + 1,
            _ => surface,
        };
        let lowest = if lake < big_lake {
            lake
        } else {
            big_lake
        };
        if river < lowest {
            river
        } else {
            lowest
        }
    }
}

/// Setting a block keeps a chunk that is at most dirty just dirty.
proof fn lemma_edit_keeps_dirty(bits: u8)
    requires
        bits == 0 || bits == ChunkFlags::DIRTY,
    ensures
        (bits | ChunkFlags::DIRTY) & !ChunkFlags::MESHED == ChunkFlags::DIRTY,
        bits | (ChunkFlags::LOADED | ChunkFlags::DIRTY) == ChunkFlags::LOADED | ChunkFlags::DIRTY,
{
    assert((bits == 0u8 || bits == 1u8) ==> (bits | 1u8) & !2u8 == 1u8) by (bit_vector);
    assert((bits == 0u8 || bits == 1u8) ==> bits | (4u8 | 1u8) == 4u8 | 1u8) by (bit_vector);
}

/// Cell indices below 4096 address one of the 256 column samples.
proof fn lemma_column_index(index: int)
    requires
        0 <= index < 4096,
    ensures
        0 <= (index / 256) * 16 + index % 16 < 256,
{
    assert(0 <= (index / 256) * 16 + index % 16 < 256) by (nonlinear_arith)
        requires
            0 <= index < 4096,
    ;
}

impl WorldGenerator {
    /// Generates a chunk from the samples of its columns and cells: every cell
    /// takes the block of the terrain passes and, where the column sees the
    /// sky, full skylight (ravine light below the sky floor); the trees of the
    /// ninth version are then placed in order. The chunk is loaded and dirty,
    /// and flags its light sources, grass and fluid sources, whose candidate
    /// cells it records.
    pub fn generate_chunk_data(self, position: IVec3, samples: &ChunkSamples) -> (chunk: Chunk)
        requires
            chunk_pos_in_range(position),
            floor_fits(self.spec_dimensions()),
            samples.wf(),
        ensures
            is_generated_chunk(self, position, *samples, chunk),
            trees_spare_grass_and_liquids(self, position, *samples) ==> chunk.flags_view()
                == generated_flags(
                exists|i: int| 0 <= i < 4096 && #[trigger] lights_cell(self, position, *samples, i),
                holds_grass(chunk.blocks_view()),
                holds_a_liquid(chunk.blocks_view()),
            ),
    {
        let passes = self.passes();
        let mut chunk = Chunk::empty();
        let mut has_light_sources = false;
        let mut has_grass = false;
        let mut has_fluid_sources = false;
        let mut i: usize = 0;
        while i < 4096
            invariant
                i <= 4096,
                passes.describes(self),
                chunk_pos_in_range(position),
                samples.wf(),
                chunk.wf(),
                chunk.flags_view() == 0 || chunk.flags_view() == ChunkFlags::DIRTY,
                chunk.candidates_view().len() == 0,
                forall|j: int|
                    0 <= j < i ==> #[trigger] chunk.blocks_view()[j] == terrain_cell(
                        self,
                        position,
                        *samples,
                        j,
                    ),
                forall|j: int|
                    0 <= j < i ==> #[trigger] chunk.skylight_view()[j] == terrain_light(
                        self,
                        position,
                        *samples,
                        j,
                    ),
                forall|j: int| i <= j < 4096 ==> #[trigger] chunk.skylight_view()[j] == 0,
                has_grass == exists|j: int|
                    0 <= j < i && #[trigger] grows_grass(self, position, *samples, j),
                has_fluid_sources == exists|j: int|
                    0 <= j < i && #[trigger] holds_liquid(self, position, *samples, j),
                has_light_sources == exists|j: int|
                    0 <= j < i && #[trigger] lights_cell(self, position, *samples, j),
            decreases 4096 - i,
        {
            proof {
                lemma_index_local_roundtrip(i as int);
                lemma_column_index(i as int);
                lemma_edit_keeps_dirty(chunk.flags_view());
            }
            let local = UVec3 { x: (i / 256) as u32, y: ((i / 16) % 16) as u32, z: (i % 16) as u32 };
            assert(local == index_local(i as int));
            let global = global_from_local(position, local);
            let column = samples.columns[(i / 256) * 16 + i % 16];
            let cell = &samples.cells[i];
            let block = self.cell_block(
                &passes,
                column,
                cell,
                samples.underground_lake,
                &samples.deposits,
                global,
            );
            chunk.set_block(local, block);
            has_grass = has_grass || block == BlockId::GRASS;
            has_fluid_sources = has_fluid_sources || block == BlockId::WATER || block
                == BlockId::LAVA;
            let sky_floor = self.column_sky_floor(&passes, column);
            let ravine = ravine_skylight(
                passes.caves && column.surface >= SEA_LEVEL && cell.in_ravine,
                column.surface,
                global.y,
            );
            if global.y as i64 >= sky_floor {
                chunk.set_skylight(local, 15);
            } else if let Some(level) = ravine {
                chunk.set_skylight(local, level);
                has_light_sources = has_light_sources || level > 1;
            }
            proof {
                let k = i as int;
                if block == BlockId::GRASS {
                    assert(grows_grass(self, position, *samples, k));
                }
                if block.spec_is_liquid() {
                    assert(holds_liquid(self, position, *samples, k));
                }
                if lights_cell(self, position, *samples, k) {
                    assert(has_light_sources);
                }
            }
            i = i + 1;
        }
        let ghost trees = placed_trees(self, *samples);
        let tree_count = if passes.trees {
            samples.trees.len()
        } else {
            0
        };
        let mut t: usize = 0;
        while t < tree_count
            invariant
                t <= tree_count,
                tree_count == trees.len(),
                trees == placed_trees(self, *samples),
                tree_count > 0 ==> trees == samples.trees@,
                passes.describes(self),
                chunk_pos_in_range(position),
                samples.wf(),
                chunk.wf(),
                chunk.flags_view() == 0 || chunk.flags_view() == ChunkFlags::DIRTY,
                chunk.candidates_view().len() == 0,
                forall|j: int|
                    0 <= j < 4096 ==> #[trigger] chunk.blocks_view()[j] == planted(
                        trees,
                        t as nat,
                        terrain_cell(self, position, *samples, j),
                        terrain_light(self, position, *samples, j),
                        cell_global(position, j),
                    ).0,
                forall|j: int|
                    0 <= j < 4096 ==> #[trigger] chunk.skylight_view()[j] == planted(
                        trees,
                        t as nat,
                        terrain_cell(self, position, *samples, j),
                        terrain_light(self, position, *samples, j),
                        cell_global(position, j),
                    ).1,
            decreases tree_count - t,
        {
            let tree = samples.trees[t];
            if tree.is_well_formed() {
                let minimum = tree.minimum();
                let maximum = tree.maximum();
                let trunk_top = tree.ground().y as i64 + tree.trunk_height() as i64;
                let mut i: usize = 0;
                while i < 4096
                    invariant
                        i <= 4096,
                        t < tree_count,
                        tree_count == trees.len(),
                        trees == placed_trees(self, *samples),
                        trees == samples.trees@,
                        tree == trees[t as int],
                        tree.wf(),
                        minimum == (IVec3 {
                            x: (tree.spec_ground().x - CANOPY_RADIUS) as i32,
                            y: (tree.spec_ground().y + 1) as i32,
                            z: (tree.spec_ground().z - CANOPY_RADIUS) as i32,
                        }),
                        maximum == (IVec3 {
                            x: (tree.spec_ground().x + CANOPY_RADIUS) as i32,
                            y: (tree.spec_ground().y + tree.spec_shape().spec_trunk_height()
                                + tree.spec_shape().spec_canopy_height()) as i32,
                            z: (tree.spec_ground().z + CANOPY_RADIUS) as i32,
                        }),
                        trunk_top == tree.spec_ground().y + tree.spec_shape().spec_trunk_height(),
                        chunk_pos_in_range(position),
                        chunk.wf(),
                        chunk.flags_view() == 0 || chunk.flags_view() == ChunkFlags::DIRTY,
                        chunk.candidates_view().len() == 0,
                        forall|j: int|
                            0 <= j < i ==> #[trigger] chunk.blocks_view()[j] == planted(
                                trees,
                                (t + 1) as nat,
                                terrain_cell(self, position, *samples, j),
                                terrain_light(self, position, *samples, j),
                                cell_global(position, j),
                            ).0,
                        forall|j: int|
                            0 <= j < i ==> #[trigger] chunk.skylight_view()[j] == planted(
                                trees,
                                (t + 1) as nat,
                                terrain_cell(self, position, *samples, j),
                                terrain_light(self, position, *samples, j),
                                cell_global(position, j),
                            ).1,
                        forall|j: int|
                            i <= j < 4096 ==> #[trigger] chunk.blocks_view()[j] == planted(
                                trees,
                                t as nat,
                                terrain_cell(self, position, *samples, j),
                                terrain_light(self, position, *samples, j),
                                cell_global(position, j),
                            ).0,
                        forall|j: int|
                            i <= j < 4096 ==> #[trigger] chunk.skylight_view()[j] == planted(
                                trees,
                                t as nat,
                                terrain_cell(self, position, *samples, j),
                                terrain_light(self, position, *samples, j),
                                cell_global(position, j),
                            ).1,
                    decreases 4096 - i,
                {
                    proof {
                        lemma_index_local_roundtrip(i as int);
                        lemma_edit_keeps_dirty(chunk.flags_view());
                    }
                    let local = UVec3 {
                        x: (i / 256) as u32,
                        y: ((i / 16) % 16) as u32,
                        z: (i % 16) as u32,
                    };
                    assert(local == index_local(i as int));
                    let global = global_from_local(position, local);
                    let ghost k = i as int;
                    let ghost before = planted(
                        trees,
                        t as nat,
                        terrain_cell(self, position, *samples, k),
                        terrain_light(self, position, *samples, k),
                        global,
                    );
                    assert(chunk.blocks_view()[k] == before.0);
                    assert(chunk.skylight_view()[k] == before.1);
                    if minimum.x <= global.x && global.x <= maximum.x && minimum.y <= global.y
                        && global.y <= maximum.y && minimum.z <= global.z && global.z
                        <= maximum.z {
                        if let Some(placed) = tree.block_at(global) {
                            let current = chunk.block(local);
                            if !(placed == BlockId::LEAVES && current == BlockId::WOOD_LOG) {
                                chunk.set_block(local, placed);
                                if placed == BlockId::WOOD_LOG && (global.y as i64) < trunk_top {
                                    chunk.set_skylight(local, 0);
                                }
                            }
                        }
                    }
                    assert(chunk.blocks_view()[k] == plant(tree, before.0, before.1, global).0);
                    assert(chunk.skylight_view()[k] == plant(tree, before.0, before.1, global).1);
                    i = i + 1;
                }
            } else {
                assert forall|j: int| 0 <= j < 4096 implies #[trigger] chunk.blocks_view()[j]
                    == planted(
                    trees,
                    (t + 1) as nat,
                    terrain_cell(self, position, *samples, j),
                    terrain_light(self, position, *samples, j),
                    cell_global(position, j),
                ).0 && chunk.skylight_view()[j] == planted(
                    trees,
                    (t + 1) as nat,
                    terrain_cell(self, position, *samples, j),
                    terrain_light(self, position, *samples, j),
                    cell_global(position, j),
                ).1 by {
                    assert(!in_tree_box(tree, cell_global(position, j)));
                }
            }
            t = t + 1;
        }
        proof {
            lemma_edit_keeps_dirty(chunk.flags_view());
        }
        chunk.flags_mut().insert(ChunkFlags::LOADED | ChunkFlags::DIRTY);
        if has_light_sources {
            chunk.flags_mut().insert(ChunkFlags::LIGHT_SOURCES);
        }
        if has_grass {
            chunk.flags_mut().insert(ChunkFlags::GRASS_TICKS);
        }
        if has_fluid_sources {
            chunk.flags_mut().insert(ChunkFlags::FLUID_SOURCES);
            chunk.rebuild_fluid_source_candidates();
        } else {
            assert(chunk.candidates_view() =~= Seq::empty());
        }
        proof {
            if trees_spare_grass_and_liquids(self, position, *samples) {
                lemma_flags_follow_blocks(self, position, *samples, chunk);
            }
        }
        chunk
    }
}

impl WorldGenerator {
    /// Generates the chunk at `position`, or nothing where the chunk lies
    /// outside the world, above the highest generated block, or holds only air.
    pub fn generate_chunk(self, position: IVec3, samples: &ChunkSamples) -> (r: Option<Chunk>)
        requires
            chunk_pos_in_range(position),
            floor_fits(self.spec_dimensions()),
            samples.wf(),
        ensures
            !self.spec_may_generate(position) ==> r is None,
            self.spec_may_generate(position) ==> (r is None <==> forall|i: int|
                0 <= i < 4096 ==> (#[trigger] generated_cell(self, position, *samples, i)).0
                    == BlockId::AIR),
            r matches Some(chunk) ==> is_generated_chunk(self, position, *samples, chunk),
    {
        if !self.may_generate(position) {
            return None;
        }
        let chunk = self.generate_chunk_data(position, samples);
        if chunk.is_empty() {
            assert forall|i: int| 0 <= i < 4096 implies (#[trigger] generated_cell(
                self,
                position,
                *samples,
                i,
            )).0 == BlockId::AIR by {
                assert(chunk.blocks_view()[i] == BlockId::AIR);
            }
            None
        } else {
            Some(chunk)
        }
    }

    /// The terrain block at a block position before trees, from the samples
    /// of its column and cell: nothing outside the world, air above both the
    /// surface and the sea, the terrain passes' block otherwise.
    pub fn base_block(
        self,
        global: IVec3,
        column: ColumnSample,
        cell: &CellSample,
        chamber: Option<UndergroundLake>,
        deposits: &Vec<UndergroundDeposit>,
    ) -> (r: Option<BlockId>)
        requires
            floor_fits(self.spec_dimensions()),
            cell.in_deposits@.len() == deposits@.len(),
        ensures
            !self.spec_contains_chunk(chunk_of(global)) ==> r is None,
            self.spec_contains_chunk(chunk_of(global)) && global.y > column.surface && global.y
                > SEA_LEVEL ==> r == Some(BlockId::AIR),
            self.spec_contains_chunk(chunk_of(global)) && !(global.y > column.surface && global.y
                > SEA_LEVEL) ==> r == Some(
                generated_block(self, column, *cell, chamber, deposits@, global),
            ),
    {
        let chunk_position = split_global(global).0;
        if !self.contains_chunk(chunk_position) {
            return None;
        }
        if global.y > column.surface && global.y > SEA_LEVEL {
            return Some(BlockId::AIR);
        }
        let passes = self.passes();
        Some(self.cell_block(&passes, column, cell, chamber, deposits, global))
    }
}


/// Two generators for one world size and seed.
pub open spec fn same_world(a: WorldGenerator, b: WorldGenerator) -> bool {
    &&& a.spec_dimensions() == b.spec_dimensions()
    &&& a.spec_seed() == b.spec_seed()
}

/// Trees only ever put logs or leaves over a cell's block.
proof fn lemma_planted_block(trees: Seq<GeneratedTree>, n: nat, block: BlockId, light: u8, p: IVec3)
    ensures
        ({
            let placed = planted(trees, n, block, light, p).0;
            placed == block || placed == BlockId::WOOD_LOG || placed == BlockId::LEAVES
        }),
    decreases n,
{
    if n > 0 {
        lemma_planted_block(trees, (n - 1) as nat, block, light, p);
        let tree = trees[n - 1];
        if in_tree_box(tree, p) {
            reveal(crate::trees::TreeShape::spec_block_at);
        }
    }
}

/// The pocket a cell falls in, when there is one, is one of the pockets.
proof fn lemma_first_containing(deposits: Seq<UndergroundDeposit>, containing: Seq<bool>, start: int)
    ensures
        first_containing(deposits, containing, start) matches Some(i) ==> 0 <= start <= i
            < deposits.len(),
    decreases deposits.len() - start,
{
    if 0 <= start < deposits.len() && !containing[start] {
        lemma_first_containing(deposits, containing, start + 1);
    }
}

/// The ninth version adds only trees: from the same samples, the eighth
/// version builds the terrain of the ninth without trees, and wherever the
/// two differ the ninth has a log or leaves.
pub proof fn law_trees_are_all_the_ninth_version_adds(
    v8: WorldGenerator,
    v9: WorldGenerator,
    position: IVec3,
    samples: ChunkSamples,
    index: int,
)
    requires
        same_world(v8, v9),
        v8.spec_kind() == GeneratorKind::ProceduralV8,
        v9.spec_kind() == GeneratorKind::ProceduralV9,
    ensures
        generated_cell(v8, position, samples, index).0 == terrain_cell(v9, position, samples, index),
        ({
            let old_block = generated_cell(v8, position, samples, index).0;
            let new_block = generated_cell(v9, position, samples, index).0;
            new_block != old_block ==> new_block == BlockId::WOOD_LOG || new_block
                == BlockId::LEAVES
        }),
{
    reveal(generated_block);
    assert(terrain_cell(v8, position, samples, index) == terrain_cell(v9, position, samples, index));
    let trees = placed_trees(v9, samples);
    lemma_planted_block(
        trees,
        trees.len(),
        terrain_cell(v9, position, samples, index),
        terrain_light(v9, position, samples, index),
        cell_global(position, index),
    );
}

/// Caves only carve: from the same samples, the second version's block of a
/// cell is the first version's block or air.
pub proof fn law_caves_only_carve(
    v1: WorldGenerator,
    v2: WorldGenerator,
    position: IVec3,
    samples: ChunkSamples,
    index: int,
)
    requires
        same_world(v1, v2),
        v1.spec_kind() == GeneratorKind::ProceduralV1,
        v2.spec_kind() == GeneratorKind::ProceduralV2,
    ensures
        ({
            let old_block = generated_cell(v1, position, samples, index).0;
            let new_block = generated_cell(v2, position, samples, index).0;
            new_block == old_block || new_block == BlockId::AIR
        }),
{
    reveal(generated_block);
}

/// Pockets only turn stone: from the same samples, wherever the seventh
/// version's block of a cell differs from the sixth version's, the sixth has
/// stone and the seventh the clay or gravel of a pocket. The pockets the
/// deposit sampler finds are of clay or gravel
/// (`law_pockets_are_gravel_or_clay`).
pub proof fn law_deposits_only_turn_stone(
    v6: WorldGenerator,
    v7: WorldGenerator,
    position: IVec3,
    samples: ChunkSamples,
    index: int,
)
    requires
        same_world(v6, v7),
        v6.spec_kind() == GeneratorKind::ProceduralV6,
        v7.spec_kind() == GeneratorKind::ProceduralV7,
        forall|i: int|
            0 <= i < samples.deposits@.len() ==> (#[trigger] samples.deposits@[i]).block
                == BlockId::CLAY || samples.deposits@[i].block == BlockId::GRAVEL,
    ensures
        ({
            let old_block = generated_cell(v6, position, samples, index).0;
            let new_block = generated_cell(v7, position, samples, index).0;
            new_block != old_block ==> old_block == BlockId::STONE && (new_block == BlockId::CLAY
                || new_block == BlockId::GRAVEL)
        }),
{
    reveal(generated_block);
    lemma_first_containing(samples.deposits@, samples.cells@[index].in_deposits@, 0);
}

/// Flat terrain does not depend on the seed: two flat generators of one size
/// give every cell the same block and skylight from the same samples.
pub proof fn law_flat_terrain_ignores_the_seed(
    a: WorldGenerator,
    b: WorldGenerator,
    position: IVec3,
    samples: ChunkSamples,
    index: int,
)
    requires
        a.spec_dimensions() == b.spec_dimensions(),
        a.spec_kind() == GeneratorKind::LegacyFlat,
        b.spec_kind() == GeneratorKind::LegacyFlat,
    ensures
        generated_cell(a, position, samples, index) == generated_cell(b, position, samples, index),
{
    reveal(generated_block);
    reveal(sky_floor);
}


/// A block of a tree: a log or leaves.
pub open spec fn is_wood(block: BlockId) -> bool {
    block == BlockId::WOOD_LOG || block == BlockId::LEAVES
}

/// A column's sediment layers, if any, are not wood.
pub open spec fn sediment_without_wood(sediment: Option<SedimentColumn>) -> bool {
    match sediment {
        Some(layer) => !is_wood(layer.lake_floor.block) && match layer.terrain {
            Some(top) => !is_wood(top.block),
            None => true,
        },
        None => true,
    }
}

/// The blocks that samples hand to the terrain passes (sediment layers and
/// pockets) are not wood.
pub open spec fn samples_without_wood(samples: ChunkSamples) -> bool {
    &&& forall|c: int|
        0 <= c < samples.columns@.len() ==> sediment_without_wood(
            (#[trigger] samples.columns@[c]).sediment,
        )
    &&& forall|i: int|
        0 <= i < samples.deposits@.len() ==> !is_wood((#[trigger] samples.deposits@[i]).block)
}

/// Versions before trees never build wood: from samples whose sediments and
/// pockets are not wood, no cell of a generator before the ninth version is
/// a log or leaves.
pub proof fn law_no_wood_before_trees(
    generator: WorldGenerator,
    position: IVec3,
    samples: ChunkSamples,
    index: int,
)
    requires
        version_of(generator.spec_kind()) < 9,
        samples.wf(),
        samples_without_wood(samples),
        0 <= index < 4096,
    ensures
        !is_wood(generated_cell(generator, position, samples, index).0),
{
    reveal(generated_block);
    lemma_column_index(index);
    lemma_first_containing(samples.deposits@, samples.cells@[index].in_deposits@, 0);
    let column = samples.columns@[column_of(index)];
    assert(column_of(index) < samples.columns@.len());
}


/// Chunk cells agree with the per-block query: from the same samples, a cell
/// of a chunk that no placed tree covers, and that does not lie above both
/// its column's surface and the sea (where the query answers air without
/// running the passes), holds the block `base_block` gives for its position
/// and its column's and cell's samples.
pub proof fn law_cells_match_the_block_query(
    generator: WorldGenerator,
    position: IVec3,
    samples: ChunkSamples,
    index: int,
)
    requires
        0 <= index < 4096,
        forall|t: int|
            0 <= t < placed_trees(generator, samples).len() ==> !#[trigger] covers(
                placed_trees(generator, samples)[t],
                cell_global(position, index),
            ),
        !(cell_global(position, index).y > samples.columns@[column_of(index)].surface
            && cell_global(position, index).y > SEA_LEVEL),
    ensures
        generated_cell(generator, position, samples, index).0 == generated_block(
            generator,
            samples.columns@[column_of(index)],
            samples.cells@[index],
            samples.underground_lake,
            samples.deposits@,
            cell_global(position, index),
        ),
{
    let trees = placed_trees(generator, samples);
    lemma_planted_untouched(
        trees,
        trees.len(),
        terrain_cell(generator, position, samples, index),
        terrain_light(generator, position, samples, index),
        cell_global(position, index),
    );
}

} // verus!
