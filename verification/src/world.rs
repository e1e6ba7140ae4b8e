use vstd::prelude::*;

use std::collections::VecDeque;

use rustc_hash::FxHashSet;

use crate::blocks::BlockId;
use crate::chunk::{
    decode_local, edited_flags, in_chunk, index_local, local_index, Chunk, MAX_SKYLIGHT,
};
use crate::collections::{
    map_contains, map_get, map_insert, map_keys, map_len, map_new, map_remove, set_clear, set_contains,
    set_insert,
    set_new, set_remove, KeyMap,
};
use crate::coordinates::{chunk_of, global_fits, global_from_local, global_of, local_of, split_global};
use crate::flags::{bits_contain, ChunkFlags};
use crate::fluid::FluidState;
use crate::geometry::{is_pos_key, key_pos, key_position, pos_key, position_key, IVec3, UVec3};

verus! {

broadcast use crate::geometry::lemma_pos_key_injective;

/// A block that changed, with its block before and after the change.
#[derive(Clone, Copy, Debug, PartialEq, Eq, Structural)]
pub struct BlockChange {
    pub position: IVec3,
    pub previous: BlockId,
    pub current: BlockId,
}

/// A chunk position whose six neighbours, and the blocks of all of them, have
/// 32-bit coordinates.
pub open spec fn chunk_pos_in_range(p: IVec3) -> bool {
    &&& -0x07FF_FFFF <= p.x <= 0x07FF_FFFE
    &&& -0x07FF_FFFF <= p.y <= 0x07FF_FFFE
    &&& -0x07FF_FFFF <= p.z <= 0x07FF_FFFE
}

/// A block position whose chunk and six neighbours have 32-bit coordinates.
pub open spec fn global_in_range(g: IVec3) -> bool {
    &&& -0x7FFF_FFF0 <= g.x <= 0x7FFF_FFEF
    &&& -0x7FFF_FFF0 <= g.y <= 0x7FFF_FFEF
    &&& -0x7FFF_FFF0 <= g.z <= 0x7FFF_FFEF
}

/// A chunk position that holds blocks with 32-bit coordinates.
pub open spec fn block_chunk(p: IVec3) -> bool {
    &&& -0x0800_0000 <= p.x <= 0x07FF_FFFF
    &&& -0x0800_0000 <= p.y <= 0x07FF_FFFF
    &&& -0x0800_0000 <= p.z <= 0x07FF_FFFF
}

/// Two chunk tables hold the same chunks with the same cells; only their
/// flags may differ.
pub open spec fn same_cells(a: Map<u128, Chunk>, b: Map<u128, Chunk>) -> bool {
    &&& a.dom() == b.dom()
    &&& forall|k: u128|
        #![trigger b[k]]
        a.contains_key(k) ==> {
            &&& b[k].blocks_view() == a[k].blocks_view()
            &&& b[k].skylight_view() == a[k].skylight_view()
            &&& b[k].candidates_view() == a[k].candidates_view()
        }
}

/// The recorded edits of a chunk after recording one more.
pub open spec fn with_edit(
    edits: Map<u128, Map<u128, BlockId>>,
    chunk_key: u128,
    local: u128,
    block: BlockId,
) -> Map<u128, Map<u128, BlockId>> {
    let previous = if edits.contains_key(chunk_key) {
        edits[chunk_key]
    } else {
        Map::empty()
    };
    edits.insert(chunk_key, previous.insert(local, block))
}

/// A chunk's cells with the recorded edits laid over them.
pub open spec fn overlay_edits(blocks: Seq<BlockId>, edits: Map<u128, BlockId>) -> Seq<BlockId> {
    Seq::new(
        blocks.len(),
        |i: int|
            if edits.contains_key(i as u128) {
                edits[i as u128]
            } else {
                blocks[i]
            },
    )
}

/// The loaded chunks, the player's edits, the fluid states and the queues
/// through which the other systems learn what changed.
pub struct World {
    chunks: KeyMap<Chunk>,
    edits: KeyMap<KeyMap<BlockId>>,
    fluid_states: KeyMap<FluidState>,
    pending_light_updates: VecDeque<BlockChange>,
    pending_fluid_updates: VecDeque<BlockChange>,
    pending_mesh_priorities: VecDeque<IVec3>,
    queued_mesh_priorities: FxHashSet<u128>,
    pending_skylight_chunks: VecDeque<IVec3>,
    pending_dirty_chunks: VecDeque<IVec3>,
    queued_dirty_chunks: FxHashSet<u128>,
    pending_removed_chunks: VecDeque<IVec3>,
    pending_grass_chunks: VecDeque<IVec3>,
    pending_fluid_chunks: VecDeque<IVec3>,
    pending_physics_chunks: VecDeque<IVec3>,
    pending_grass_light_chunks: VecDeque<IVec3>,
    queued_grass_light_chunks: FxHashSet<u128>,
}

/// Between two states of a world only chunk flags and the remesh queues
/// changed: the same chunks hold the same cells, and the edits, fluid states
/// and other queues are untouched.
pub open spec fn only_flags_changed(before: World, after: World) -> bool {
    &&& after.wf()
    &&& same_cells(before.chunks_view(), after.chunks_view())
    &&& after.edits_view() == before.edits_view()
    &&& after.fluid_view() == before.fluid_view()
    &&& after.light_updates_view() == before.light_updates_view()
    &&& after.fluid_updates_view() == before.fluid_updates_view()
    &&& after.removed_queue_view() == before.removed_queue_view()
    &&& after.fluid_chunks_view() == before.fluid_chunks_view()
    &&& after.physics_chunks_view() == before.physics_chunks_view()
    &&& after.skylight_chunks_view() == before.skylight_chunks_view()
    &&& after.grass_chunks_view() == before.grass_chunks_view()
}

/// How high a liquid cell is filled: to the top (falling, or with the same
/// liquid above), at source height, or flowing with `remaining` of `maximum`
/// levels left before it runs out.
#[derive(Clone, Copy, Debug, PartialEq, Eq, Structural)]
pub enum LiquidSurface {
    Full,
    Source,
    Flowing { remaining: u8, maximum: u8 },
}

/// The surface of the liquid at a world position, or none where no liquid lies.
pub open spec fn liquid_surface_spec(world: World, global: IVec3) -> Option<LiquidSurface> {
    let block = world.block_at(global);
    let recorded = world.fluid_view().contains_key(pos_key(global));
    let level: u8 = if recorded {
        world.fluid_view()[pos_key(global)].spec_level()
    } else {
        0
    };
    let falling = recorded && world.fluid_view()[pos_key(global)].spec_falling();
    let above = world.block_at(IVec3 { y: (global.y + 1) as i32, ..global });
    if !block.spec_is_liquid() {
        None
    } else if falling || above == block {
        Some(LiquidSurface::Full)
    } else if level == 0 {
        Some(LiquidSurface::Source)
    } else {
        let maximum: u8 = if block == BlockId::WATER {
            8
        } else {
            5
        };
        let capped: u8 = if level < maximum {
            level
        } else {
            maximum
        };
        Some(LiquidSurface::Flowing { remaining: (maximum - capped) as u8, maximum })
    }
}

/// Chunk `c` is chunk `p` or one of its six face neighbours.
pub open spec fn touches(p: IVec3, c: IVec3) -> bool {
    ||| c == p
    ||| c == IVec3 { x: (p.x + 1) as i32, ..p }
    ||| c == IVec3 { x: (p.x - 1) as i32, ..p }
    ||| c == IVec3 { y: (p.y + 1) as i32, ..p }
    ||| c == IVec3 { y: (p.y - 1) as i32, ..p }
    ||| c == IVec3 { z: (p.z + 1) as i32, ..p }
    ||| c == IVec3 { z: (p.z - 1) as i32, ..p }
}

/// Some chunk of a list is chunk `c` or one of its face neighbours.
pub open spec fn touched_by(changed: Seq<IVec3>, c: IVec3) -> bool {
    exists|i: int| 0 <= i < changed.len() && #[trigger] touches(changed[i], c)
}

/// A queue and its set of queued keys after queueing each position of a
/// list, in order, unless its key is queued already.
pub open spec fn queue_once(queue: Seq<IVec3>, queued: Set<u128>, positions: Seq<IVec3>) -> (
    Seq<IVec3>,
    Set<u128>,
)
    decreases positions.len(),
{
    if positions.len() == 0 {
        (queue, queued)
    } else {
        let (q, s) = queue_once(queue, queued, positions.drop_last());
        let p = positions.last();
        if s.contains(pos_key(p)) {
            (q, s)
        } else {
            (q.push(p), s.insert(pos_key(p)))
        }
    }
}

/// A queue and its set of queued keys after queueing the chunk position `p`,
/// when a chunk is loaded there and its key is not queued yet.
pub open spec fn queue_loaded(
    queue: Seq<IVec3>,
    queued: Set<u128>,
    loaded: Set<u128>,
    p: IVec3,
) -> (Seq<IVec3>, Set<u128>) {
    if loaded.contains(pos_key(p)) && !queued.contains(pos_key(p)) {
        (queue.push(p), queued.insert(pos_key(p)))
    } else {
        (queue, queued)
    }
}

/// A queue and its set of queued keys after queueing each chunk position of
/// a list, in order, when a chunk is loaded there and its key is not queued yet.
pub open spec fn queue_loaded_all(
    queue: Seq<IVec3>,
    queued: Set<u128>,
    loaded: Set<u128>,
    positions: Seq<IVec3>,
) -> (Seq<IVec3>, Set<u128>)
    decreases positions.len(),
{
    if positions.len() == 0 {
        (queue, queued)
    } else {
        let (q, s) = queue_loaded_all(queue, queued, loaded, positions.drop_last());
        queue_loaded(q, s, loaded, positions.last())
    }
}

/// Queueing one more position after a list queues it after the others.
proof fn lemma_queue_loaded_all_push(
    queue: Seq<IVec3>,
    queued: Set<u128>,
    loaded: Set<u128>,
    positions: Seq<IVec3>,
    p: IVec3,
)
    ensures
        queue_loaded_all(queue, queued, loaded, positions.push(p)) == queue_loaded(
            queue_loaded_all(queue, queued, loaded, positions).0,
            queue_loaded_all(queue, queued, loaded, positions).1,
            loaded,
            p,
        ),
{
    assert(positions.push(p).drop_last() =~= positions);
}

/// The six face neighbours of a chunk, in the order they are marked.
pub open spec fn face_neighbours(p: IVec3) -> Seq<IVec3> {
    seq![
        IVec3 { x: (p.x + 1) as i32, ..p },
        IVec3 { x: (p.x - 1) as i32, ..p },
        IVec3 { y: (p.y + 1) as i32, ..p },
        IVec3 { y: (p.y - 1) as i32, ..p },
        IVec3 { z: (p.z + 1) as i32, ..p },
        IVec3 { z: (p.z - 1) as i32, ..p },
    ]
}

/// The face neighbours of a chunk across the chunk faces that the cell at
/// `local` lies on, in the order they are marked.
pub open spec fn border_neighbours(p: IVec3, local: UVec3) -> Seq<IVec3> {
    let s1 = if local.x == 0 {
        Seq::<IVec3>::empty().push(IVec3 { x: (p.x - 1) as i32, ..p })
    } else {
        Seq::<IVec3>::empty()
    };
    let s2 = if local.x == 15 {
        s1.push(IVec3 { x: (p.x + 1) as i32, ..p })
    } else {
        s1
    };
    let s3 = if local.y == 0 {
        s2.push(IVec3 { y: (p.y - 1) as i32, ..p })
    } else {
        s2
    };
    let s4 = if local.y == 15 {
        s3.push(IVec3 { y: (p.y + 1) as i32, ..p })
    } else {
        s3
    };
    let s5 = if local.z == 0 {
        s4.push(IVec3 { z: (p.z - 1) as i32, ..p })
    } else {
        s4
    };
    if local.z == 15 {
        s5.push(IVec3 { z: (p.z + 1) as i32, ..p })
    } else {
        s5
    }
}

/// The chunks that hold a block and each of its six face neighbours, in the
/// order they are queued.
pub open spec fn block_neighbour_chunks(g: IVec3) -> Seq<IVec3> {
    seq![
        chunk_of(g),
        chunk_of(IVec3 { x: (g.x + 1) as i32, ..g }),
        chunk_of(IVec3 { x: (g.x - 1) as i32, ..g }),
        chunk_of(IVec3 { y: (g.y + 1) as i32, ..g }),
        chunk_of(IVec3 { y: (g.y - 1) as i32, ..g }),
        chunk_of(IVec3 { z: (g.z + 1) as i32, ..g }),
        chunk_of(IVec3 { z: (g.z - 1) as i32, ..g }),
    ]
}

/// From `before` to `after` the loaded chunks of a list were marked dirty
/// and unmeshed, in order, and queued for remeshing once each; nothing else
/// changed but chunk flags and the remesh queue.
pub open spec fn marked_dirty(before: World, after: World, positions: Seq<IVec3>) -> bool {
    &&& only_flags_changed(before, after)
    &&& after.grass_light_chunks_view() == before.grass_light_chunks_view()
    &&& after.grass_light_queued_view() == before.grass_light_queued_view()
    &&& after.mesh_priorities_view() == before.mesh_priorities_view()
    &&& after.mesh_queued_view() == before.mesh_queued_view()
    &&& (after.dirty_queue_view(), after.dirty_queued_view()) == queue_loaded_all(
        before.dirty_queue_view(),
        before.dirty_queued_view(),
        before.chunks_view().dom(),
        positions,
    )
    &&& forall|k: u128|
        #![trigger after.chunks_view()[k]]
        before.chunks_view().contains_key(k) ==> after.chunks_view()[k].flags_view()
            == if position_keys(positions).contains(k) {
            edited_flags(before.chunks_view()[k].flags_view())
        } else {
            before.chunks_view()[k].flags_view()
        }
}

/// The key set of a one-element list.
proof fn lemma_position_keys_single(p: IVec3)
    ensures
        position_keys(seq![p]) == set![pos_key(p)],
{
    lemma_position_keys_push(Seq::empty(), p);
    assert(position_keys(Seq::<IVec3>::empty()) =~= Set::empty());
    assert(Seq::<IVec3>::empty().push(p) =~= seq![p]);
    assert(set![pos_key(p)] =~= Set::<u128>::empty().insert(pos_key(p)));
}

/// Marking no chunk changes nothing.
proof fn lemma_marked_dirty_none(world: World)
    requires
        world.wf(),
    ensures
        marked_dirty(world, world, Seq::empty()),
{
}

/// Marking one more chunk after a list marks the longer list.
proof fn lemma_marked_dirty_push(
    before: World,
    mid: World,
    after: World,
    positions: Seq<IVec3>,
    p: IVec3,
)
    requires
        marked_dirty(before, mid, positions),
        marked_dirty(mid, after, seq![p]),
    ensures
        marked_dirty(before, after, positions.push(p)),
{
    lemma_queue_loaded_all_push(
        before.dirty_queue_view(),
        before.dirty_queued_view(),
        before.chunks_view().dom(),
        positions,
        p,
    );
    lemma_queue_loaded_all_push(
        mid.dirty_queue_view(),
        mid.dirty_queued_view(),
        mid.chunks_view().dom(),
        Seq::empty(),
        p,
    );
    assert(Seq::<IVec3>::empty().push(p) =~= seq![p]);
    lemma_position_keys_push(positions, p);
    lemma_position_keys_single(p);
    assert forall|k: u128|
        #![trigger after.chunks_view()[k]]
        before.chunks_view().contains_key(k) implies after.chunks_view()[k].flags_view()
            == if position_keys(positions.push(p)).contains(k) {
            edited_flags(before.chunks_view()[k].flags_view())
        } else {
            before.chunks_view()[k].flags_view()
        } by {
        assert(mid.chunks_view().contains_key(k));
        lemma_edit_flags(before.chunks_view()[k].flags_view());
    }
    assert(same_cells(before.chunks_view(), after.chunks_view())) by {
        assert forall|k: u128|
            #![trigger after.chunks_view()[k]]
            before.chunks_view().contains_key(k) implies {
                &&& after.chunks_view()[k].blocks_view() == before.chunks_view()[k].blocks_view()
                &&& after.chunks_view()[k].skylight_view() == before.chunks_view()[k].skylight_view()
                &&& after.chunks_view()[k].candidates_view()
                    == before.chunks_view()[k].candidates_view()
            } by {
            assert(mid.chunks_view().contains_key(k));
        }
    }
}

/// Chunk positions whose face neighbours have 32-bit coordinates.
pub open spec fn neighbours_fit(p: IVec3) -> bool {
    &&& i32::MIN < p.x < i32::MAX
    &&& i32::MIN < p.y < i32::MAX
    &&& i32::MIN < p.z < i32::MAX
}

/// Chunk tables with the same cells give the same blocks and skylight everywhere.
proof fn lemma_same_cells_reads(a: World, b: World)
    requires
        same_cells(a.chunks_view(), b.chunks_view()),
    ensures
        forall|g: IVec3| #[trigger] b.block_at(g) == a.block_at(g),
        forall|g: IVec3| #[trigger] b.skylight_at(g) == a.skylight_at(g),
{
    assert forall|g: IVec3| #[trigger] b.block_at(g) == a.block_at(g) by {
        let k = pos_key(chunk_of(g));
        if a.chunks_view().contains_key(k) {
            assert(b.chunks_view()[k].blocks_view() == a.chunks_view()[k].blocks_view());
        }
    }
    assert forall|g: IVec3| #[trigger] b.skylight_at(g) == a.skylight_at(g) by {
        let k = pos_key(chunk_of(g));
        if a.chunks_view().contains_key(k) {
            assert(b.chunks_view()[k].skylight_view() == a.chunks_view()[k].skylight_view());
        }
    }
}

/// A block change made by laying an edit over a chunk cell that held another block.
pub open spec fn change_from_edit(
    position: IVec3,
    blocks: Seq<BlockId>,
    edits: Map<u128, BlockId>,
    change: BlockChange,
) -> bool {
    exists|l: int|
        0 <= l < 4096 && #[trigger] edits.contains_key(l as u128) && blocks[l] != edits[l as u128]
            && change == (BlockChange {
            position: global_of(position, index_local(l)),
            previous: blocks[l],
            current: edits[l as u128],
        })
}

proof fn lemma_change_in_range(
    position: IVec3,
    blocks: Seq<BlockId>,
    edits: Map<u128, BlockId>,
    change: BlockChange,
)
    requires
        chunk_pos_in_range(position),
        change_from_edit(position, blocks, edits, change),
    ensures
        global_in_range(change.position),
{
    let l = choose|l: int|
        0 <= l < 4096 && #[trigger] edits.contains_key(l as u128) && blocks[l] != edits[l as u128]
            && change == (BlockChange {
            position: global_of(position, index_local(l)),
            previous: blocks[l],
            current: edits[l as u128],
        });
    crate::chunk::lemma_index_local_roundtrip(l);
}

/// The fluid states of the blocks outside a chunk.
pub open spec fn fluid_outside(states: Map<u128, FluidState>, position: IVec3) -> Map<
    u128,
    FluidState,
> {
    states.restrict(states.dom().filter(|k: u128| chunk_of(key_pos(k)) != position))
}

/// The fluid states outside every chunk whose key is in `chunks`.
pub open spec fn fluid_outside_chunks(states: Map<u128, FluidState>, chunks: Set<u128>) -> Map<
    u128,
    FluidState,
> {
    states.restrict(states.dom().filter(|k: u128| !chunks.contains(pos_key(chunk_of(key_pos(k))))))
}

/// The keys of a list of chunk positions.
pub open spec fn position_keys(positions: Seq<IVec3>) -> Set<u128> {
    Set::new(|k: u128| exists|i: int| 0 <= i < positions.len() && pos_key(positions[i]) == k)
}

/// The keys of a list grow by the key of a position pushed onto it.
pub proof fn lemma_position_keys_push(positions: Seq<IVec3>, position: IVec3)
    ensures
        position_keys(positions.push(position)) == position_keys(positions).insert(pos_key(position)),
{
    let pushed = positions.push(position);
    assert forall|k: u128| #[trigger] position_keys(pushed).contains(k)
        <==> position_keys(positions).insert(pos_key(position)).contains(k) by {
        if position_keys(pushed).contains(k) {
            let i = choose|i: int| 0 <= i < pushed.len() && pos_key(pushed[i]) == k;
            if i < positions.len() {
                assert(pushed[i] == positions[i]);
            }
        }
        if position_keys(positions).contains(k) {
            let i = choose|i: int| 0 <= i < positions.len() && pos_key(positions[i]) == k;
            assert(pushed[i] == positions[i]);
        }
        if k == pos_key(position) {
            assert(pushed[positions.len() as int] == position);
        }
    }
    assert(position_keys(pushed) =~= position_keys(positions).insert(pos_key(position)));
}

/// The positions, in list order, whose chunk a batch removal unloads: those
/// loaded before the batch and not already removed by an earlier entry.
pub open spec fn removal_order(loaded: Set<u128>, positions: Seq<IVec3>) -> Seq<IVec3>
    decreases positions.len(),
{
    if positions.len() == 0 {
        Seq::empty()
    } else {
        let earlier = positions.drop_last();
        let last = positions.last();
        let order = removal_order(loaded, earlier);
        if loaded.difference(position_keys(earlier)).contains(pos_key(last)) {
            order.push(last)
        } else {
            order
        }
    }
}

/// Edits of the chunks of a key list, each at a cell index below 4096, are finitely many.
proof fn lemma_edit_cells_finite(edits: Map<u128, Map<u128, BlockId>>, keys: Seq<u128>)
    requires
        forall|k: u128| edits.contains_key(k) ==> #[trigger] keys.contains(k),
        forall|k: u128, l: u128|
            edits.contains_key(k) && #[trigger] edits[k].contains_key(l) ==> l < 4096,
    ensures
        edit_cells(edits).finite(),
{
    let n = keys.len() as int;
    let range = vstd::set_lib::set_int_range(0, n * 4096);
    vstd::set_lib::lemma_int_range(0, n * 4096);
    let f = |i: int| (keys[i / 4096], (i % 4096) as u128);
    range.lemma_map_finite(f);
    assert forall|p: (u128, u128)| #[trigger] edit_cells(edits).contains(p) implies range.map(f).contains(p) by {
        assert(keys.contains(p.0));
        let j = choose|j: int| 0 <= j < keys.len() && keys[j] == p.0;
        let i = j * 4096 + p.1 as int;
        assert(p.1 < 4096);
        assert(0 <= i < n * 4096 && i / 4096 == j && i % 4096 == p.1) by (nonlinear_arith)
            requires
                i == j * 4096 + p.1 as int,
                0 <= j < n,
                0 <= p.1 < 4096,
        ;
        assert(range.contains(i));
        assert(f(i) == p);
    }
    vstd::set_lib::lemma_set_subset_finite(range.map(f), edit_cells(edits));
}

/// An edit survives unloading and reloading its chunk: once an edit that
/// changes a loaded block is recorded, unloading the chunk keeps the recorded
/// edits, and whatever chunk is loaded there again reads back the edited block.
pub proof fn law_edit_survives_reload(
    before: World,
    edited: World,
    unloaded: World,
    reloaded: World,
    global: IVec3,
    block: BlockId,
    fresh: Chunk,
)
    requires
        before.chunk_at(chunk_of(global)) is Some,
        before.block_at(global) != block,
        edited.edits_view() == with_edit(
            before.edits_view(),
            pos_key(chunk_of(global)),
            local_index(local_of(global)) as u128,
            block,
        ),
        unloaded.edits_view() == edited.edits_view(),
        fresh.wf(),
        reloaded.chunks_view().contains_key(pos_key(chunk_of(global))),
        reloaded.chunks_view()[pos_key(chunk_of(global))].blocks_view() == overlay_edits(
            fresh.blocks_view(),
            unloaded.chunk_edits(chunk_of(global)),
        ),
    ensures
        reloaded.block_at(global) == block,
{
    crate::coordinates::law_split_join_roundtrip(
        global,
        IVec3 { x: 0, y: 0, z: 0 },
        UVec3 { x: 0, y: 0, z: 0 },
    );
    let index = local_index(local_of(global));
    assert(0 <= index < 4096);
    assert(unloaded.chunk_edits(chunk_of(global)).contains_key(index as u128));
    assert(unloaded.chunk_edits(chunk_of(global))[index as u128] == block);
}

/// The edits worth saving: those whose block differs from what the
/// generator produces at their position, given that block for each edit.
pub open spec fn persistent_upto(
    edits: Seq<(IVec3, BlockId)>,
    generated_blocks: Seq<Option<BlockId>>,
    n: int,
) -> Seq<(IVec3, BlockId)>
    decreases n,
{
    if n <= 0 {
        Seq::empty()
    } else {
        let earlier = persistent_upto(edits, generated_blocks, n - 1);
        if generated_blocks[n - 1] != Some(edits[n - 1].1) {
            earlier.push(edits[n - 1])
        } else {
            earlier
        }
    }
}

/// Each edit beside the block the generator puts at its position.
pub open spec fn edits_beside_generated(
    edits: Seq<(IVec3, BlockId)>,
    generated_blocks: Seq<Option<BlockId>>,
) -> Seq<((IVec3, BlockId), Option<BlockId>)> {
    Seq::new(edits.len(), |i: int| (edits[i], generated_blocks[i]))
}

/// The edit of a pair, when its block differs from the generated one.
pub open spec fn differing_edit(pair: ((IVec3, BlockId), Option<BlockId>)) -> Option<(IVec3, BlockId)> {
    if pair.1 != Some(pair.0.1) {
        Some(pair.0)
    } else {
        None
    }
}

/// Saving keeps exactly the edits that differ from the generated terrain, in
/// order: the saved list is the edits filtered by whether their block differs
/// from the generated block, so every differing edit is kept and no other.
pub proof fn law_saving_keeps_every_differing_edit(
    edits: Seq<(IVec3, BlockId)>,
    generated_blocks: Seq<Option<BlockId>>,
)
    requires
        generated_blocks.len() == edits.len(),
    ensures
        persistent_upto(edits, generated_blocks, edits.len() as int) == edits_beside_generated(
            edits,
            generated_blocks,
        ).filter_map(|pair: ((IVec3, BlockId), Option<BlockId>)| differing_edit(pair)),
        forall|i: int|
            0 <= i < edits.len() && generated_blocks[i] != Some(#[trigger] edits[i].1)
                ==> persistent_upto(edits, generated_blocks, edits.len() as int).contains(edits[i]),
        forall|e: (IVec3, BlockId)|
            #[trigger] persistent_upto(edits, generated_blocks, edits.len() as int).contains(e)
                ==> exists|i: int|
                0 <= i < edits.len() && edits[i] == e && generated_blocks[i] != Some(e.1),
{
    lemma_persistent_prefix(edits, generated_blocks, edits.len() as int);
    let pairs = edits_beside_generated(edits, generated_blocks);
    assert(pairs.take(edits.len() as int) =~= pairs);
}

/// The saved edits of the first `n` edits, as a filter over their pairs, and
/// which edits they hold.
proof fn lemma_persistent_prefix(
    edits: Seq<(IVec3, BlockId)>,
    generated_blocks: Seq<Option<BlockId>>,
    n: int,
)
    requires
        generated_blocks.len() == edits.len(),
        0 <= n <= edits.len(),
    ensures
        persistent_upto(edits, generated_blocks, n) == edits_beside_generated(
            edits,
            generated_blocks,
        ).take(n).filter_map(|pair: ((IVec3, BlockId), Option<BlockId>)| differing_edit(pair)),
        forall|i: int|
            0 <= i < n && generated_blocks[i] != Some(#[trigger] edits[i].1) ==> persistent_upto(
                edits,
                generated_blocks,
                n,
            ).contains(edits[i]),
        forall|e: (IVec3, BlockId)|
            #[trigger] persistent_upto(edits, generated_blocks, n).contains(e) ==> exists|i: int|
                0 <= i < n && edits[i] == e && generated_blocks[i] != Some(e.1),
    decreases n,
{
    let pairs = edits_beside_generated(edits, generated_blocks);
    let f = |pair: ((IVec3, BlockId), Option<BlockId>)| differing_edit(pair);
    if n == 0 {
        assert(pairs.take(0) =~= Seq::<((IVec3, BlockId), Option<BlockId>)>::empty());
    } else {
        lemma_persistent_prefix(edits, generated_blocks, n - 1);
        let earlier = persistent_upto(edits, generated_blocks, n - 1);
        assert(pairs.take(n).drop_last() =~= pairs.take(n - 1));
        assert(pairs.take(n).last() == (edits[n - 1], generated_blocks[n - 1]));
        let now = persistent_upto(edits, generated_blocks, n);
        if generated_blocks[n - 1] != Some(edits[n - 1].1) {
            assert(earlier.push(edits[n - 1]) =~= earlier + seq![edits[n - 1]]);
        }
        assert forall|i: int|
            0 <= i < n && generated_blocks[i] != Some(#[trigger] edits[i].1) implies now.contains(
                edits[i],
            ) by {
            if i < n - 1 {
                let k = choose|k: int| 0 <= k < earlier.len() && earlier[k] == edits[i];
                assert(now[k] == earlier[k]);
            } else {
                assert(now[now.len() - 1] == edits[i]);
            }
        }
        assert forall|e: (IVec3, BlockId)| #[trigger] now.contains(e) implies exists|i: int|
            0 <= i < n && edits[i] == e && generated_blocks[i] != Some(e.1) by {
            let k = choose|k: int| 0 <= k < now.len() && now[k] == e;
            if k < earlier.len() {
                assert(earlier[k] == e);
                assert(earlier.contains(e));
            } else {
                assert(e == edits[n - 1]);
            }
        }
    }
}

/// Keeps the edits whose block differs from the generated block at their
/// position (`generated_blocks`, one per edit), in order.
pub fn persistent_edits(
    edits: &Vec<(IVec3, BlockId)>,
    generated_blocks: &Vec<Option<BlockId>>,
) -> (r: Vec<(IVec3, BlockId)>)
    requires
        generated_blocks@.len() == edits@.len(),
    ensures
        r@ == persistent_upto(edits@, generated_blocks@, edits@.len() as int),
{
    let mut r: Vec<(IVec3, BlockId)> = Vec::new();
    let mut i: usize = 0;
    while i < edits.len()
        invariant
            i <= edits@.len(),
            generated_blocks@.len() == edits@.len(),
            r@ == persistent_upto(edits@, generated_blocks@, i as int),
        decreases edits@.len() - i,
    {
        let edit = edits[i];
        if generated_blocks[i] != Some(edit.1) {
            r.push(edit);
        }
        i = i + 1;
    }
    r
}

/// A batch removal unloads as many chunks as it reports.
pub proof fn lemma_removal_count(loaded: Set<u128>, positions: Seq<IVec3>)
    requires
        loaded.finite(),
    ensures
        loaded.difference(position_keys(positions)).len() + removal_order(loaded, positions).len()
            == loaded.len(),
    decreases positions.len(),
{
    if positions.len() == 0 {
        assert(loaded.difference(position_keys(positions)) =~= loaded);
    } else {
        let earlier = positions.drop_last();
        let last = positions.last();
        lemma_removal_count(loaded, earlier);
        assert(earlier.push(last) == positions);
        lemma_position_keys_push(earlier, last);
        let before = loaded.difference(position_keys(earlier));
        assert(loaded.difference(position_keys(positions)) =~= before.remove(pos_key(last)));
    }
}

/// A batch removal only unloads listed positions.
proof fn lemma_removal_order_in_range(loaded: Set<u128>, positions: Seq<IVec3>)
    requires
        forall|i: int| 0 <= i < positions.len() ==> chunk_pos_in_range(#[trigger] positions[i]),
    ensures
        forall|t: int|
            0 <= t < removal_order(loaded, positions).len() ==> chunk_pos_in_range(
                #[trigger] removal_order(loaded, positions)[t],
            ),
    decreases positions.len(),
{
    if positions.len() > 0 {
        let earlier = positions.drop_last();
        assert forall|i: int| 0 <= i < earlier.len() implies chunk_pos_in_range(#[trigger] earlier[i]) by {
            assert(earlier[i] == positions[i]);
        }
        lemma_removal_order_in_range(loaded, earlier);
        let last = positions[positions.len() - 1];
        assert(chunk_pos_in_range(last));
        let rest = removal_order(loaded, earlier);
        let order = removal_order(loaded, positions);
        assert(order == rest.push(last) || order == rest);
        assert forall|t: int| 0 <= t < order.len() implies chunk_pos_in_range(#[trigger] order[t]) by {
            if t < rest.len() {
                assert(order[t] == rest[t]);
            } else {
                assert(order[t] == last);
            }
        }
    }
}

/// The recorded edits as pairs of a chunk key and a cell index.
pub open spec fn edit_cells(edits: Map<u128, Map<u128, BlockId>>) -> Set<(u128, u128)> {
    Set::new(|p: (u128, u128)| edits.contains_key(p.0) && edits[p.0].contains_key(p.1))
}

/// The recorded edits of the chunks whose keys are in `keys`.
pub open spec fn edit_cells_in(edits: Map<u128, Map<u128, BlockId>>, keys: Set<u128>) -> Set<
    (u128, u128),
> {
    Set::new(
        |p: (u128, u128)| keys.contains(p.0) && edits.contains_key(p.0) && edits[p.0].contains_key(p.1),
    )
}

/// Flag bits of a chunk after the recorded edits were laid over it: an edit
/// makes the chunk dirty and unmeshed, and a grass edit schedules grass ticks.
pub open spec fn flags_after_edits(bits: u8, any_edit: bool, any_grass: bool) -> u8 {
    if !any_edit {
        bits
    } else if any_grass {
        edited_flags(bits) | ChunkFlags::GRASS_TICKS
    } else {
        edited_flags(bits)
    }
}

proof fn lemma_edit_flags(bits: u8)
    ensures
        edited_flags(edited_flags(bits)) == edited_flags(bits),
        edited_flags(edited_flags(bits) | 16) == edited_flags(bits) | 16,
        (edited_flags(bits) | 16) | 16 == edited_flags(bits) | 16,
        edited_flags(bits | 16) == edited_flags(bits) | 16,
{
    assert(((((bits | 1u8) & !2u8) | 1u8) & !2u8) == ((bits | 1u8) & !2u8)) by (bit_vector);
    assert((((((bits | 1u8) & !2u8) | 16u8) | 1u8) & !2u8) == (((bits | 1u8) & !2u8) | 16u8))
        by (bit_vector);
    assert(((((bits | 1u8) & !2u8) | 16u8) | 16u8) == (((bits | 1u8) & !2u8) | 16u8))
        by (bit_vector);
    assert((((bits | 16u8) | 1u8) & !2u8) == (((bits | 1u8) & !2u8) | 16u8)) by (bit_vector);
}

/// Moves every element of a queue, in order, into a list.
fn drain_queue<T>(queue: &mut VecDeque<T>) -> (r: Vec<T>)
    ensures
        r@ == old(queue)@,
        final(queue)@.len() == 0,
{
    let mut r: Vec<T> = Vec::new();
    let ghost initial = queue@;
    while queue.len() > 0
        invariant
            initial == r@ + queue@,
        decreases queue@.len(),
    {
        match queue.pop_front() {
            Some(item) => {
                r.push(item);
            },
            None => {},
        }
        assert(initial == r@ + queue@);
    }
    assert(r@ =~= initial);
    r
}

impl World {
    /// The loaded chunks by position key.
    pub closed spec fn chunks_view(self) -> Map<u128, Chunk> {
        self.chunks@
    }

    /// The recorded edits: by chunk position key, the edited cells by cell index.
    pub closed spec fn edits_view(self) -> Map<u128, Map<u128, BlockId>> {
        self.edits@.map_values(|m: KeyMap<BlockId>| m@)
    }

    /// The fluid states by block position key.
    pub closed spec fn fluid_view(self) -> Map<u128, FluidState> {
        self.fluid_states@
    }

    pub closed spec fn light_updates_view(self) -> Seq<BlockChange> {
        self.pending_light_updates@
    }

    pub closed spec fn fluid_updates_view(self) -> Seq<BlockChange> {
        self.pending_fluid_updates@
    }

    pub closed spec fn dirty_queue_view(self) -> Seq<IVec3> {
        self.pending_dirty_chunks@
    }

    pub closed spec fn removed_queue_view(self) -> Seq<IVec3> {
        self.pending_removed_chunks@
    }

    pub closed spec fn fluid_chunks_view(self) -> Seq<IVec3> {
        self.pending_fluid_chunks@
    }

    pub closed spec fn physics_chunks_view(self) -> Seq<IVec3> {
        self.pending_physics_chunks@
    }

    pub closed spec fn skylight_chunks_view(self) -> Seq<IVec3> {
        self.pending_skylight_chunks@
    }

    pub closed spec fn grass_chunks_view(self) -> Seq<IVec3> {
        self.pending_grass_chunks@
    }

    pub closed spec fn mesh_priorities_view(self) -> Seq<IVec3> {
        self.pending_mesh_priorities@
    }

    /// The keys of the chunks queued for priority remeshing since the queue
    /// was last taken.
    pub closed spec fn mesh_queued_view(self) -> Set<u128> {
        self.queued_mesh_priorities@
    }

    /// The keys of the chunks queued for remeshing since the queue was last taken.
    pub closed spec fn dirty_queued_view(self) -> Set<u128> {
        self.queued_dirty_chunks@
    }

    pub closed spec fn grass_light_chunks_view(self) -> Seq<IVec3> {
        self.pending_grass_light_chunks@
    }

    /// The keys of the chunks queued for grass lighting since the queue was last taken.
    pub closed spec fn grass_light_queued_view(self) -> Set<u128> {
        self.queued_grass_light_chunks@
    }

    /// Every chunk is well formed and stored under the key of a position in range;
    /// every edit is stored under the key of a chunk position and a cell
    /// index; every fluid state under the key of a block position.
    pub open spec fn wf(self) -> bool {
        &&& forall|k: u128| #[trigger]
            self.chunks_view().contains_key(k) ==> self.chunks_view()[k].wf() && is_pos_key(k)
                && chunk_pos_in_range(key_pos(k))
        &&& forall|k: u128| #[trigger]
            self.edits_view().contains_key(k) ==> is_pos_key(k) && block_chunk(key_pos(k))
                && forall|l: u128| #[trigger] self.edits_view()[k].contains_key(l) ==> l < 4096
        &&& forall|k: u128| #[trigger] self.fluid_view().contains_key(k) ==> is_pos_key(k)
        &&& self.chunks_view().dom().finite()
    }

    /// The chunk loaded at a chunk position.
    pub open spec fn chunk_at(self, position: IVec3) -> Option<Chunk> {
        if self.chunks_view().contains_key(pos_key(position)) {
            Some(self.chunks_view()[pos_key(position)])
        } else {
            None
        }
    }

    /// The block at a world position: air where no chunk is loaded.
    pub open spec fn block_at(self, global: IVec3) -> BlockId {
        match self.chunk_at(chunk_of(global)) {
            Some(chunk) => chunk.block_at(local_of(global)),
            None => BlockId::AIR,
        }
    }

    /// The skylight at a world position: dark where no chunk is loaded.
    pub open spec fn skylight_at(self, global: IVec3) -> u8 {
        match self.chunk_at(chunk_of(global)) {
            Some(chunk) => chunk.skylight_at(local_of(global)),
            None => 0,
        }
    }

    /// The edit recorded for a chunk position and cell index.
    pub open spec fn edit_at(self, position: IVec3, index: int) -> Option<BlockId> {
        let key = pos_key(position);
        if self.edits_view().contains_key(key) && self.edits_view()[key].contains_key(
            index as u128,
        ) {
            Some(self.edits_view()[key][index as u128])
        } else {
            None
        }
    }

    /// A world without chunks, edits, fluid states or pending work.
    pub fn new() -> (r: World)
        ensures
            r.wf(),
            r.chunks_view().is_empty(),
            r.edits_view().is_empty(),
            r.fluid_view().is_empty(),
    {
        let w = World {
            chunks: map_new(),
            edits: map_new(),
            fluid_states: map_new(),
            pending_light_updates: VecDeque::new(),
            pending_fluid_updates: VecDeque::new(),
            pending_mesh_priorities: VecDeque::new(),
            queued_mesh_priorities: set_new(),
            pending_skylight_chunks: VecDeque::new(),
            pending_dirty_chunks: VecDeque::new(),
            queued_dirty_chunks: set_new(),
            pending_removed_chunks: VecDeque::new(),
            pending_grass_chunks: VecDeque::new(),
            pending_fluid_chunks: VecDeque::new(),
            pending_physics_chunks: VecDeque::new(),
            pending_grass_light_chunks: VecDeque::new(),
            queued_grass_light_chunks: set_new(),
        };
        assert(w.edits_view() =~= Map::empty());
        w
    }

    /// The chunk loaded at a chunk position.
    pub fn chunk(&self, position: IVec3) -> (r: Option<&Chunk>)
        ensures
            r == match self.chunk_at(position) {
                Some(c) => Some(&c),
                None => None,
            },
    {
        map_get(&self.chunks, position_key(position))
    }

    /// Whether the chunk holding a block is loaded.
    pub fn contains_block(&self, global: IVec3) -> (r: bool)
        ensures
            r == self.chunk_at(chunk_of(global)) is Some,
    {
        let (chunk_position, _) = split_global(global);
        map_contains(&self.chunks, position_key(chunk_position))
    }

    /// The block at a world position; air where no chunk is loaded.
    pub fn block(&self, global: IVec3) -> (r: BlockId)
        requires
            self.wf(),
        ensures
            r == self.block_at(global),
    {
        let (chunk_position, local) = split_global(global);
        let key = position_key(chunk_position);
        match map_get(&self.chunks, key) {
            Some(chunk) => {
                assert(self.chunks_view().contains_key(key));
                chunk.block(local)
            },
            None => BlockId::AIR,
        }
    }

    /// The skylight at a world position; dark where no chunk is loaded.
    pub fn skylight(&self, global: IVec3) -> (r: u8)
        requires
            self.wf(),
        ensures
            r == self.skylight_at(global),
    {
        let (chunk_position, local) = split_global(global);
        let key = position_key(chunk_position);
        match map_get(&self.chunks, key) {
            Some(chunk) => {
                assert(self.chunks_view().contains_key(key));
                chunk.skylight(local)
            },
            None => 0,
        }
    }

    /// Whether any edit is recorded for a chunk.
    pub fn has_chunk_edits(&self, position: IVec3) -> (r: bool)
        ensures
            r == (self.edits_view().contains_key(pos_key(position)) && !self.edits_view()[pos_key(
                position,
            )].is_empty()),
    {
        match map_get(&self.edits, position_key(position)) {
            Some(edits) => {
                let keys = map_keys(edits);
                let empty = keys.len() == 0;
                proof {
                    if !empty {
                        assert(keys@.contains(keys@[0]));
                        assert(edits@.contains_key(keys@[0]));
                    } else {
                        assert forall|k: u128| !edits@.contains_key(k) by {
                            assert(!keys@.contains(k));
                        }
                        assert(edits@ =~= Map::empty());
                    }
                }
                !empty
            },
            None => false,
        }
    }

    /// The fluid state recorded for a block.
    pub fn fluid_state(&self, global: IVec3) -> (r: Option<FluidState>)
        ensures
            r == (if self.fluid_view().contains_key(pos_key(global)) {
                Some(self.fluid_view()[pos_key(global)])
            } else {
                None
            }),
    {
        match map_get(&self.fluid_states, position_key(global)) {
            Some(state) => Some(*state),
            None => None,
        }
    }

    /// The surface of the liquid at a world position; a liquid cell without a
    /// recorded flow state is a source.
    pub fn liquid_surface(&self, global: IVec3) -> (r: Option<LiquidSurface>)
        requires
            self.wf(),
            global.y < i32::MAX,
        ensures
            r == liquid_surface_spec(*self, global),
    {
        let block = self.block(global);
        if !block.is_liquid() {
            return None;
        }
        let state = match self.fluid_state(global) {
            Some(state) => state,
            None => FluidState::source(),
        };
        if state.is_falling() || self.block(IVec3 { y: global.y + 1, ..global }) == block {
            return Some(LiquidSurface::Full);
        }
        if state.level() == 0 {
            return Some(LiquidSurface::Source);
        }
        let maximum: u8 = if block == BlockId::WATER {
            8
        } else {
            5
        };
        let level = if state.level() < maximum {
            state.level()
        } else {
            maximum
        };
        Some(LiquidSurface::Flowing { remaining: maximum - level, maximum })
    }

    /// Queues a loaded chunk for remeshing once until the queue is taken.
    fn queue_dirty_chunk(&mut self, position: IVec3)
        ensures
            final(self).chunks_view() == old(self).chunks_view(),
            final(self).edits_view() == old(self).edits_view(),
            final(self).fluid_view() == old(self).fluid_view(),
            final(self).light_updates_view() == old(self).light_updates_view(),
            final(self).fluid_updates_view() == old(self).fluid_updates_view(),
            final(self).removed_queue_view() == old(self).removed_queue_view(),
            final(self).fluid_chunks_view() == old(self).fluid_chunks_view(),
            final(self).physics_chunks_view() == old(self).physics_chunks_view(),
            final(self).skylight_chunks_view() == old(self).skylight_chunks_view(),
            final(self).grass_chunks_view() == old(self).grass_chunks_view(),
            final(self).grass_light_chunks_view() == old(self).grass_light_chunks_view(),
            final(self).grass_light_queued_view() == old(self).grass_light_queued_view(),
            final(self).mesh_priorities_view() == old(self).mesh_priorities_view(),
            final(self).mesh_queued_view() == old(self).mesh_queued_view(),
            (final(self).dirty_queue_view(), final(self).dirty_queued_view()) == queue_loaded(
                old(self).dirty_queue_view(),
                old(self).dirty_queued_view(),
                old(self).chunks_view().dom(),
                position,
            ),
    {
        let key = position_key(position);
        if map_contains(&self.chunks, key) && set_insert(&mut self.queued_dirty_chunks, key) {
            self.pending_dirty_chunks.push_back(position);
        }
    }

    /// Marks a loaded chunk dirty and unmeshed and queues it for remeshing.
    fn mark_chunk_dirty(&mut self, position: IVec3)
        requires
            old(self).wf(),
        ensures
            final(self).wf(),
            same_cells(old(self).chunks_view(), final(self).chunks_view()),
            final(self).edits_view() == old(self).edits_view(),
            final(self).fluid_view() == old(self).fluid_view(),
            final(self).light_updates_view() == old(self).light_updates_view(),
            final(self).fluid_updates_view() == old(self).fluid_updates_view(),
            final(self).removed_queue_view() == old(self).removed_queue_view(),
            final(self).fluid_chunks_view() == old(self).fluid_chunks_view(),
            final(self).physics_chunks_view() == old(self).physics_chunks_view(),
            final(self).skylight_chunks_view() == old(self).skylight_chunks_view(),
            final(self).grass_chunks_view() == old(self).grass_chunks_view(),
            final(self).grass_light_chunks_view() == old(self).grass_light_chunks_view(),
            final(self).grass_light_queued_view() == old(self).grass_light_queued_view(),
            forall|k: u128|
                #![trigger final(self).chunks_view()[k]]
                old(self).chunks_view().contains_key(k) && k != pos_key(position)
                    ==> final(self).chunks_view()[k] == old(self).chunks_view()[k],
            old(self).chunks_view().contains_key(pos_key(position))
                ==> final(self).chunks_view()[pos_key(position)].flags_view() == edited_flags(
                old(self).chunks_view()[pos_key(position)].flags_view(),
            ),
            marked_dirty(*old(self), *final(self), seq![position]),
    {
        proof {
            lemma_position_keys_single(position);
            lemma_queue_loaded_all_push(
                old(self).dirty_queue_view(),
                old(self).dirty_queued_view(),
                old(self).chunks_view().dom(),
                Seq::empty(),
                position,
            );
            assert(Seq::<IVec3>::empty().push(position) =~= seq![position]);
        }
        let key = position_key(position);
        match map_remove(&mut self.chunks, key) {
            Some(mut chunk) => {
                let ghost before = chunk;
                assert(old(self).chunks_view().contains_key(key));
                assert(before.wf());
                let flags = chunk.flags_mut();
                flags.insert(ChunkFlags::DIRTY);
                flags.remove(ChunkFlags::MESHED);
                assert(chunk.blocks_view() == before.blocks_view());
                assert(chunk.wf());
                map_insert(&mut self.chunks, key, chunk);
                assert(self.chunks@.dom() =~= old(self).chunks@.dom());
                assert forall|k: u128| #[trigger]
                    self.chunks_view().contains_key(k) implies self.chunks_view()[k].wf()
                    && is_pos_key(k) && chunk_pos_in_range(key_pos(k)) by {
                    if k != key {
                        assert(old(self).chunks_view().contains_key(k));
                    }
                }
                assert(self.edits_view() == old(self).edits_view());
                assert(self.fluid_view() == old(self).fluid_view());
                assert(self.wf());
                self.queue_dirty_chunk(position);
                assert(self.wf());
            },
            None => {
                assert(self.chunks@ =~= old(self).chunks@);
                assert forall|k: u128| #[trigger]
                    self.chunks_view().contains_key(k) implies self.chunks_view()[k].wf()
                    && is_pos_key(k) && chunk_pos_in_range(key_pos(k)) by {
                    assert(old(self).chunks_view().contains_key(k));
                }
                assert(self.edits_view() == old(self).edits_view());
                assert(self.fluid_view() == old(self).fluid_view());
                assert(self.wf());
            },
        }
    }

    /// Marks the six face neighbours of a chunk dirty.
    fn mark_neighbours_dirty(&mut self, position: IVec3)
        requires
            old(self).wf(),
            chunk_pos_in_range(position),
        ensures
            only_flags_changed(*old(self), *final(self)),
            marked_dirty(*old(self), *final(self), face_neighbours(position)),
    {
        let ghost start = *self;
        let a = IVec3 { x: position.x + 1, ..position };
        self.mark_chunk_dirty(a);
        let ghost s1 = *self;
        let b = IVec3 { x: position.x - 1, ..position };
        self.mark_chunk_dirty(b);
        proof {
            lemma_marked_dirty_push(start, s1, *self, seq![a], b);
        }
        let ghost s2 = *self;
        let c = IVec3 { y: position.y + 1, ..position };
        self.mark_chunk_dirty(c);
        proof {
            lemma_marked_dirty_push(start, s2, *self, seq![a].push(b), c);
        }
        let ghost s3 = *self;
        let d = IVec3 { y: position.y - 1, ..position };
        self.mark_chunk_dirty(d);
        proof {
            lemma_marked_dirty_push(start, s3, *self, seq![a].push(b).push(c), d);
        }
        let ghost s4 = *self;
        let e = IVec3 { z: position.z + 1, ..position };
        self.mark_chunk_dirty(e);
        proof {
            lemma_marked_dirty_push(start, s4, *self, seq![a].push(b).push(c).push(d), e);
        }
        let ghost s5 = *self;
        let f = IVec3 { z: position.z - 1, ..position };
        self.mark_chunk_dirty(f);
        proof {
            lemma_marked_dirty_push(start, s5, *self, seq![a].push(b).push(c).push(d).push(e), f);
            assert(seq![a].push(b).push(c).push(d).push(e).push(f) =~= face_neighbours(position));
        }
    }

    /// Marks dirty the neighbours of a chunk that share the face a changed
    /// cell touches.
    fn mark_border_neighbours_dirty(&mut self, position: IVec3, local: UVec3)
        requires
            old(self).wf(),
            chunk_pos_in_range(position),
        ensures
            only_flags_changed(*old(self), *final(self)),
            marked_dirty(*old(self), *final(self), border_neighbours(position, local)),
    {
        let ghost start = *self;
        let ghost mut done: Seq<IVec3> = Seq::empty();
        proof {
            lemma_marked_dirty_none(start);
        }
        if local.x == 0 {
            let ghost mid = *self;
            let target = IVec3 { x: position.x - 1, ..position };
            self.mark_chunk_dirty(target);
            proof {
                lemma_marked_dirty_push(start, mid, *self, done, target);
                done = done.push(target);
            }
        }
        if local.x == 15 {
            let ghost mid = *self;
            let target = IVec3 { x: position.x + 1, ..position };
            self.mark_chunk_dirty(target);
            proof {
                lemma_marked_dirty_push(start, mid, *self, done, target);
                done = done.push(target);
            }
        }
        if local.y == 0 {
            let ghost mid = *self;
            let target = IVec3 { y: position.y - 1, ..position };
            self.mark_chunk_dirty(target);
            proof {
                lemma_marked_dirty_push(start, mid, *self, done, target);
                done = done.push(target);
            }
        }
        if local.y == 15 {
            let ghost mid = *self;
            let target = IVec3 { y: position.y + 1, ..position };
            self.mark_chunk_dirty(target);
            proof {
                lemma_marked_dirty_push(start, mid, *self, done, target);
                done = done.push(target);
            }
        }
        if local.z == 0 {
            let ghost mid = *self;
            let target = IVec3 { z: position.z - 1, ..position };
            self.mark_chunk_dirty(target);
            proof {
                lemma_marked_dirty_push(start, mid, *self, done, target);
                done = done.push(target);
            }
        }
        if local.z == 15 {
            let ghost mid = *self;
            let target = IVec3 { z: position.z + 1, ..position };
            self.mark_chunk_dirty(target);
            proof {
                lemma_marked_dirty_push(start, mid, *self, done, target);
                done = done.push(target);
            }
        }
        assert(done == border_neighbours(position, local));
    }

    /// Queues for priority remeshing the loaded chunks that hold a block or
    /// one of its six neighbours, each once until the queue is taken.
    fn queue_mesh_priority(&mut self, global: IVec3)
        requires
            global_in_range(global),
        ensures
            final(self).chunks_view() == old(self).chunks_view(),
            final(self).edits_view() == old(self).edits_view(),
            final(self).fluid_view() == old(self).fluid_view(),
            final(self).light_updates_view() == old(self).light_updates_view(),
            final(self).fluid_updates_view() == old(self).fluid_updates_view(),
            final(self).removed_queue_view() == old(self).removed_queue_view(),
            final(self).fluid_chunks_view() == old(self).fluid_chunks_view(),
            final(self).physics_chunks_view() == old(self).physics_chunks_view(),
            final(self).skylight_chunks_view() == old(self).skylight_chunks_view(),
            final(self).grass_chunks_view() == old(self).grass_chunks_view(),
            final(self).dirty_queue_view() == old(self).dirty_queue_view(),
            final(self).dirty_queued_view() == old(self).dirty_queued_view(),
            (final(self).mesh_priorities_view(), final(self).mesh_queued_view())
                == queue_loaded_all(
                old(self).mesh_priorities_view(),
                old(self).mesh_queued_view(),
                old(self).chunks_view().dom(),
                block_neighbour_chunks(global),
            ),
    {
        let ghost mut done: Seq<IVec3> = Seq::empty();
        let block = global;
        proof {
            lemma_queue_loaded_all_push(
                old(self).mesh_priorities_view(),
                old(self).mesh_queued_view(),
                old(self).chunks_view().dom(),
                done,
                chunk_of(block),
            );
        }
        self.queue_mesh_chunk(block);
        proof {
            done = done.push(chunk_of(block));
        }
        let block = IVec3 { x: global.x + 1, ..global };
        proof {
            lemma_queue_loaded_all_push(
                old(self).mesh_priorities_view(),
                old(self).mesh_queued_view(),
                old(self).chunks_view().dom(),
                done,
                chunk_of(block),
            );
        }
        self.queue_mesh_chunk(block);
        proof {
            done = done.push(chunk_of(block));
        }
        let block = IVec3 { x: global.x - 1, ..global };
        proof {
            lemma_queue_loaded_all_push(
                old(self).mesh_priorities_view(),
                old(self).mesh_queued_view(),
                old(self).chunks_view().dom(),
                done,
                chunk_of(block),
            );
        }
        self.queue_mesh_chunk(block);
        proof {
            done = done.push(chunk_of(block));
        }
        let block = IVec3 { y: global.y + 1, ..global };
        proof {
            lemma_queue_loaded_all_push(
                old(self).mesh_priorities_view(),
                old(self).mesh_queued_view(),
                old(self).chunks_view().dom(),
                done,
                chunk_of(block),
            );
        }
        self.queue_mesh_chunk(block);
        proof {
            done = done.push(chunk_of(block));
        }
        let block = IVec3 { y: global.y - 1, ..global };
        proof {
            lemma_queue_loaded_all_push(
                old(self).mesh_priorities_view(),
                old(self).mesh_queued_view(),
                old(self).chunks_view().dom(),
                done,
                chunk_of(block),
            );
        }
        self.queue_mesh_chunk(block);
        proof {
            done = done.push(chunk_of(block));
        }
        let block = IVec3 { z: global.z + 1, ..global };
        proof {
            lemma_queue_loaded_all_push(
                old(self).mesh_priorities_view(),
                old(self).mesh_queued_view(),
                old(self).chunks_view().dom(),
                done,
                chunk_of(block),
            );
        }
        self.queue_mesh_chunk(block);
        proof {
            done = done.push(chunk_of(block));
        }
        let block = IVec3 { z: global.z - 1, ..global };
        proof {
            lemma_queue_loaded_all_push(
                old(self).mesh_priorities_view(),
                old(self).mesh_queued_view(),
                old(self).chunks_view().dom(),
                done,
                chunk_of(block),
            );
        }
        self.queue_mesh_chunk(block);
        proof {
            done = done.push(chunk_of(block));
        }
        proof {
            assert(done =~= block_neighbour_chunks(global));
        }
    }

    fn queue_mesh_chunk(&mut self, position: IVec3)
        ensures
            final(self).chunks_view() == old(self).chunks_view(),
            final(self).edits_view() == old(self).edits_view(),
            final(self).fluid_view() == old(self).fluid_view(),
            final(self).light_updates_view() == old(self).light_updates_view(),
            final(self).fluid_updates_view() == old(self).fluid_updates_view(),
            final(self).removed_queue_view() == old(self).removed_queue_view(),
            final(self).fluid_chunks_view() == old(self).fluid_chunks_view(),
            final(self).physics_chunks_view() == old(self).physics_chunks_view(),
            final(self).skylight_chunks_view() == old(self).skylight_chunks_view(),
            final(self).grass_chunks_view() == old(self).grass_chunks_view(),
            final(self).dirty_queue_view() == old(self).dirty_queue_view(),
            final(self).dirty_queued_view() == old(self).dirty_queued_view(),
            (final(self).mesh_priorities_view(), final(self).mesh_queued_view()) == queue_loaded(
                old(self).mesh_priorities_view(),
                old(self).mesh_queued_view(),
                old(self).chunks_view().dom(),
                chunk_of(position),
            ),
    {
        let (chunk, _) = split_global(position);
        let key = position_key(chunk);
        if map_contains(&self.chunks, key) && set_insert(&mut self.queued_mesh_priorities, key) {
            self.pending_mesh_priorities.push_back(chunk);
        }
    }

    /// Records an edit of a cell of a chunk.
    fn record_edit(&mut self, chunk_key: u128, local: UVec3, block: BlockId)
        requires
            old(self).wf(),
            is_pos_key(chunk_key),
            block_chunk(key_pos(chunk_key)),
            in_chunk(local),
        ensures
            final(self).wf(),
            final(self).edits_view() == with_edit(
                old(self).edits_view(),
                chunk_key,
                local_index(local) as u128,
                block,
            ),
            final(self).chunks_view() == old(self).chunks_view(),
            final(self).fluid_view() == old(self).fluid_view(),
            final(self).light_updates_view() == old(self).light_updates_view(),
            final(self).fluid_updates_view() == old(self).fluid_updates_view(),
            final(self).removed_queue_view() == old(self).removed_queue_view(),
            final(self).fluid_chunks_view() == old(self).fluid_chunks_view(),
            final(self).physics_chunks_view() == old(self).physics_chunks_view(),
            final(self).skylight_chunks_view() == old(self).skylight_chunks_view(),
            final(self).grass_chunks_view() == old(self).grass_chunks_view(),
            final(self).dirty_queue_view() == old(self).dirty_queue_view(),
            final(self).mesh_priorities_view() == old(self).mesh_priorities_view(),
    {
        let index = (local.x as u128) * 256 + (local.y as u128) * 16 + (local.z as u128);
        let mut chunk_edits = match map_remove(&mut self.edits, chunk_key) {
            Some(e) => e,
            None => map_new(),
        };
        map_insert(&mut chunk_edits, index, block);
        map_insert(&mut self.edits, chunk_key, chunk_edits);
        assert(self.edits_view() =~= with_edit(
            old(self).edits_view(),
            chunk_key,
            local_index(local) as u128,
            block,
        ));
        assert forall|k: u128| #[trigger] self.edits_view().contains_key(k) implies is_pos_key(k)
            && forall|l: u128| #[trigger]
            self.edits_view()[k].contains_key(l) ==> l < 4096 by {
            if k != chunk_key {
                assert(old(self).edits_view().contains_key(k));
            } else {
                if old(self).edits_view().contains_key(k) {
                    assert(old(self).edits_view().contains_key(k));
                }
            }
        }
        assert(self.chunks_view() == old(self).chunks_view());
        assert(self.fluid_view() == old(self).fluid_view());
    }

    /// Stores a block at a world position and returns the block it replaced.
    /// A missing chunk is created empty; the chunk is marked loaded and dirty,
    /// a non-liquid block drops the cell's fluid state, and chunks sharing the
    /// changed face are marked dirty.
    #[verifier::rlimit(30)]
    pub fn set_block(&mut self, global: IVec3, block: BlockId) -> (previous: BlockId)
        requires
            old(self).wf(),
            global_in_range(global),
        ensures
            final(self).wf(),
            previous == old(self).block_at(global),
            forall|g: IVec3| #[trigger]
                final(self).block_at(g) == if g == global {
                    block
                } else {
                    old(self).block_at(g)
                },
            final(self).chunks_view().dom() == old(self).chunks_view().dom().insert(
                pos_key(chunk_of(global)),
            ),
            final(self).edits_view() == old(self).edits_view(),
            !block.spec_is_liquid() ==> final(self).fluid_view() == old(self).fluid_view().remove(
                pos_key(global),
            ),
            block.spec_is_liquid() ==> final(self).fluid_view() == old(self).fluid_view(),
    {
        let (chunk_position, local) = split_global(global);
        let key = position_key(chunk_position);
        let mut chunk = match map_remove(&mut self.chunks, key) {
            Some(c) => {
                assert(old(self).chunks_view().contains_key(key));
                c
            },
            None => Chunk::empty(),
        };
        let ghost before = chunk;
        chunk.flags_mut().insert(ChunkFlags::LOADED);
        assert(chunk.blocks_view() == before.blocks_view());
        let previous = chunk.set_block(local, block);
        proof {
            crate::geometry::lemma_pos_key(chunk_position);
            assert(chunk_pos_in_range(chunk_position));
        }
        map_insert(&mut self.chunks, key, chunk);
        if !block.is_liquid() {
            map_remove(&mut self.fluid_states, position_key(global));
        }
        proof {
            assert forall|k: u128| #[trigger]
                self.chunks_view().contains_key(k) implies self.chunks_view()[k].wf()
                && is_pos_key(k) && chunk_pos_in_range(key_pos(k)) by {
                if k != key {
                    assert(old(self).chunks_view().contains_key(k));
                }
            }
            assert forall|k: u128| #[trigger]
                self.fluid_view().contains_key(k) implies is_pos_key(k) by {
                assert(old(self).fluid_view().contains_key(k));
            }
            assert(self.edits_view() == old(self).edits_view());
        }
        let ghost mid = *self;
        proof {
            crate::coordinates::law_split_join_roundtrip(global, chunk_position, local);
            assert forall|g: IVec3| #[trigger]
                mid.block_at(g) == if g == global {
                    block
                } else {
                    old(self).block_at(g)
                } by {
                crate::coordinates::law_split_join_roundtrip(g, chunk_position, local);
                if chunk_of(g) == chunk_position && g != global {
                    assert(local_of(g) != local);
                    assert(local_index(local_of(g)) != local_index(local)) by {
                        crate::chunk::law_local_encoding_roundtrip(
                            local_of(g).x as int, local_of(g).y as int, local_of(g).z as int, 0);
                        crate::chunk::law_local_encoding_roundtrip(
                            local.x as int, local.y as int, local.z as int, 0);
                    }
                }
            }
        }
        self.queue_dirty_chunk(chunk_position);
        self.mark_border_neighbours_dirty(chunk_position, local);
        proof {
            assert forall|g: IVec3| #[trigger]
                self.block_at(g) == if g == global {
                    block
                } else {
                    old(self).block_at(g)
                } by {
                assert(mid.block_at(g) == if g == global {
                    block
                } else {
                    old(self).block_at(g)
                });
                if mid.chunks_view().contains_key(pos_key(chunk_of(g))) {
                    assert(self.chunks_view()[pos_key(chunk_of(g))].blocks_view()
                        == mid.chunks_view()[pos_key(chunk_of(g))].blocks_view());
                }
            }
            assert(self.chunks_view().dom() =~= old(self).chunks_view().dom().insert(key));
        }
        previous
    }


    /// The block written into a loaded chunk at a world position, before the
    /// bookkeeping that follows the write.
    fn write_loaded_cell(&mut self, global: IVec3, block: BlockId) -> (r: (BlockId, IVec3, UVec3))
        requires
            old(self).wf(),
            old(self).chunk_at(chunk_of(global)) is Some,
        ensures
            final(self).wf(),
            r.0 == old(self).block_at(global),
            r.1 == chunk_of(global),
            r.2 == local_of(global),
            in_chunk(r.2),
            forall|g: IVec3| #[trigger]
                final(self).block_at(g) == if g == global {
                    block
                } else {
                    old(self).block_at(g)
                },
            forall|g: IVec3| #[trigger] final(self).skylight_at(g) == old(self).skylight_at(g),
            final(self).chunks_view().dom() == old(self).chunks_view().dom(),
            final(self).edits_view() == old(self).edits_view(),
            !block.spec_is_liquid() ==> final(self).fluid_view() == old(self).fluid_view().remove(
                pos_key(global),
            ),
            block.spec_is_liquid() ==> final(self).fluid_view() == old(self).fluid_view(),
            final(self).light_updates_view() == old(self).light_updates_view(),
            final(self).fluid_updates_view() == old(self).fluid_updates_view(),
            final(self).removed_queue_view() == old(self).removed_queue_view(),
            final(self).fluid_chunks_view() == old(self).fluid_chunks_view(),
            final(self).physics_chunks_view() == old(self).physics_chunks_view(),
            final(self).skylight_chunks_view() == old(self).skylight_chunks_view(),
            final(self).grass_chunks_view() == old(self).grass_chunks_view(),
    {
        let (chunk_position, local) = split_global(global);
        let key = position_key(chunk_position);
        let mut chunk = match map_remove(&mut self.chunks, key) {
            Some(c) => {
                assert(old(self).chunks_view().contains_key(key));
                c
            },
            None => Chunk::empty(),
        };
        let previous = chunk.set_block(local, block);
        map_insert(&mut self.chunks, key, chunk);
        if !block.is_liquid() {
            map_remove(&mut self.fluid_states, position_key(global));
        }
        proof {
            assert forall|k: u128| #[trigger]
                self.chunks_view().contains_key(k) implies self.chunks_view()[k].wf()
                && is_pos_key(k) && chunk_pos_in_range(key_pos(k)) by {
                if k != key {
                    assert(old(self).chunks_view().contains_key(k));
                }
            }
            assert forall|k: u128| #[trigger]
                self.fluid_view().contains_key(k) implies is_pos_key(k) by {
                assert(old(self).fluid_view().contains_key(k));
            }
            assert(self.edits_view() == old(self).edits_view());
            assert(self.chunks_view().dom() =~= old(self).chunks_view().dom());
            crate::coordinates::law_split_join_roundtrip(global, chunk_position, local);
            assert forall|g: IVec3| #[trigger]
                self.block_at(g) == if g == global {
                    block
                } else {
                    old(self).block_at(g)
                } by {
                crate::coordinates::law_split_join_roundtrip(g, chunk_position, local);
                if chunk_of(g) == chunk_position && g != global {
                    assert(local_of(g) != local);
                    assert(local_index(local_of(g)) != local_index(local)) by {
                        crate::chunk::law_local_encoding_roundtrip(
                            local_of(g).x as int, local_of(g).y as int, local_of(g).z as int, 0);
                        crate::chunk::law_local_encoding_roundtrip(
                            local.x as int, local.y as int, local.z as int, 0);
                    }
                }
            }
            assert forall|g: IVec3| #[trigger]
                self.skylight_at(g) == old(self).skylight_at(g) by {
                if chunk_of(g) == chunk_position {
                    assert(self.chunks_view()[key].skylight_view()
                        == old(self).chunks_view()[key].skylight_view());
                }
            }
        }
        (previous, chunk_position, local)
    }

    /// A player or world edit: stores a block in a loaded chunk, records it
    /// so that it survives unloading and regeneration, and queues the light,
    /// fluid and mesh updates it causes. Returns the replaced block, or `None`
    /// when the chunk is not loaded. Rewriting a block with itself records
    /// nothing, except for water and lava, whose source is recorded and
    /// handed to the fluid simulation.
    #[verifier::rlimit(40)]
    pub fn edit_block(&mut self, global: IVec3, block: BlockId) -> (r: Option<BlockId>)
        requires
            old(self).wf(),
            global_in_range(global),
        ensures
            final(self).wf(),
            old(self).chunk_at(chunk_of(global)) is None ==> r.is_none() && *final(self) == *old(
                self,
            ),
            old(self).chunk_at(chunk_of(global)) is Some ==> {
                &&& r == Some(old(self).block_at(global))
                &&& forall|g: IVec3| #[trigger]
                    final(self).block_at(g) == if g == global {
                        block
                    } else {
                        old(self).block_at(g)
                    }
                &&& forall|g: IVec3| #[trigger]
                    final(self).skylight_at(g) == old(self).skylight_at(g)
                &&& final(self).chunks_view().dom() == old(self).chunks_view().dom()
                &&& (old(self).block_at(global) != block || block == BlockId::WATER || block
                    == BlockId::LAVA) ==> final(self).edits_view() == with_edit(
                    old(self).edits_view(),
                    pos_key(chunk_of(global)),
                    local_index(local_of(global)) as u128,
                    block,
                )
                &&& !(old(self).block_at(global) != block || block == BlockId::WATER || block
                    == BlockId::LAVA) ==> final(self).edits_view() == old(self).edits_view()
                &&& !block.spec_is_liquid() ==> final(self).fluid_view() == old(
                    self,
                ).fluid_view().remove(pos_key(global))
                &&& block.spec_is_liquid() ==> final(self).fluid_view() == old(self).fluid_view()
                &&& old(self).block_at(global) != block ==> final(self).light_updates_view() == old(
                    self,
                ).light_updates_view().push(
                    BlockChange { position: global, previous: old(self).block_at(global), current: block },
                )
                &&& old(self).block_at(global) == block ==> final(self).light_updates_view() == old(
                    self,
                ).light_updates_view()
                &&& (old(self).block_at(global) != block || block == BlockId::WATER || block
                    == BlockId::LAVA) ==> final(self).fluid_updates_view() == old(
                    self,
                ).fluid_updates_view().push(
                    BlockChange { position: global, previous: old(self).block_at(global), current: block },
                )
            },
    {
        let (chunk_position, _) = split_global(global);
        if !map_contains(&self.chunks, position_key(chunk_position)) {
            return None;
        }
        let (previous, chunk_position, local) = self.write_loaded_cell(global, block);
        let ghost after_write = *self;
        let key = position_key(chunk_position);
        proof {
            crate::geometry::lemma_pos_key(chunk_position);
        }
        if previous == block {
            if block == BlockId::WATER || block == BlockId::LAVA {
                self.record_edit(key, local, block);
                self.pending_fluid_updates.push_back(
                    BlockChange { position: global, previous, current: block },
                );
            }
            proof {
                assert(self.chunks_view() == after_write.chunks_view());
                assert forall|g: IVec3| #[trigger]
                    self.skylight_at(g) == old(self).skylight_at(g) by {
                    assert(after_write.skylight_at(g) == old(self).skylight_at(g));
                }
            }
            return Some(previous);
        }
        self.queue_dirty_chunk(chunk_position);
        self.record_edit(key, local, block);
        self.pending_light_updates.push_back(
            BlockChange { position: global, previous, current: block },
        );
        self.pending_fluid_updates.push_back(
            BlockChange { position: global, previous, current: block },
        );
        self.queue_mesh_priority(global);
        let ghost mid = *self;
        self.mark_border_neighbours_dirty(chunk_position, local);
        proof {
            assert(mid.chunks_view() == after_write.chunks_view());
            lemma_same_cells_reads(mid, *self);
            assert forall|g: IVec3| #[trigger]
                self.block_at(g) == if g == global {
                    block
                } else {
                    old(self).block_at(g)
                } by {
                assert(self.block_at(g) == mid.block_at(g));
                assert(mid.block_at(g) == after_write.block_at(g));
            }
            assert forall|g: IVec3| #[trigger]
                self.skylight_at(g) == old(self).skylight_at(g) by {
                assert(self.skylight_at(g) == mid.skylight_at(g));
                assert(mid.skylight_at(g) == after_write.skylight_at(g));
            }
        }
        Some(previous)
    }


    /// The edits recorded for a chunk position.
    pub open spec fn chunk_edits(self, position: IVec3) -> Map<u128, BlockId> {
        if self.edits_view().contains_key(pos_key(position)) {
            self.edits_view()[pos_key(position)]
        } else {
            Map::empty()
        }
    }

    /// Lays the edits recorded for a chunk position over a chunk, and lists
    /// the cells whose block the edits changed.
    fn apply_edits(&self, position: IVec3, chunk: &mut Chunk) -> (changes: Vec<BlockChange>)
        requires
            self.wf(),
            old(chunk).wf(),
            chunk_pos_in_range(position),
        ensures
            final(chunk).wf(),
            final(chunk).blocks_view() == overlay_edits(
                old(chunk).blocks_view(),
                self.chunk_edits(position),
            ),
            final(chunk).skylight_view() == old(chunk).skylight_view(),
            final(chunk).candidates_view() == old(chunk).candidates_view(),
            final(chunk).flags_view() == flags_after_edits(
                old(chunk).flags_view(),
                !self.chunk_edits(position).is_empty(),
                exists|l: u128| #[trigger]
                    self.chunk_edits(position).contains_key(l) && self.chunk_edits(position)[l]
                        == BlockId::GRASS,
            ),
            forall|t: int|
                0 <= t < changes@.len() ==> change_from_edit(
                    position,
                    old(chunk).blocks_view(),
                    self.chunk_edits(position),
                    #[trigger] changes@[t],
                ),
            (changes@.len() == 0) == (forall|l: int|
                0 <= l < 4096 && #[trigger] self.chunk_edits(position).contains_key(l as u128)
                    ==> old(chunk).blocks_view()[l] == self.chunk_edits(position)[l as u128]),
    {
        let ghost edits = self.chunk_edits(position);
        let ghost initial = *chunk;
        let mut changes: Vec<BlockChange> = Vec::new();
        let key = position_key(position);
        let chunk_edits = match map_get(&self.edits, key) {
            Some(e) => e,
            None => {
                proof {
                    assert(edits =~= Map::empty());
                    assert(chunk.blocks_view() =~= overlay_edits(initial.blocks_view(), edits));
                }
                return changes;
            },
        };
        assert(self.edits_view().contains_key(key));
        assert(chunk_edits@ == edits);
        let locals = map_keys(chunk_edits);
        let mut any_grass = false;
        let mut i: usize = 0;
        while i < locals.len()
            invariant
                self.wf(),
                chunk_pos_in_range(position),
                chunk_edits@ == edits,
                edits == self.chunk_edits(position),
                locals@.no_duplicates(),
                forall|k: u128| edits.contains_key(k) <==> #[trigger] locals@.contains(k),
                forall|l: u128| #[trigger] edits.contains_key(l) ==> l < 4096,
                i <= locals@.len(),
                chunk.wf(),
                chunk.skylight_view() == initial.skylight_view(),
                chunk.candidates_view() == initial.candidates_view(),
                forall|j: int|
                    0 <= j < 4096 ==> #[trigger] chunk.blocks_view()[j] == if locals@.take(
                        i as int,
                    ).contains(j as u128) {
                        edits[j as u128]
                    } else {
                        initial.blocks_view()[j]
                    },
                chunk.flags_view() == flags_after_edits(initial.flags_view(), i > 0, any_grass),
                any_grass == exists|t: int|
                    0 <= t < i && #[trigger] edits[locals@[t]] == BlockId::GRASS,
                forall|t: int|
                    0 <= t < changes@.len() ==> change_from_edit(
                        position,
                        initial.blocks_view(),
                        edits,
                        #[trigger] changes@[t],
                    ),
                (changes@.len() == 0) == (forall|t: int|
                    0 <= t < i ==> initial.blocks_view()[locals@[t] as int]
                        == #[trigger] edits[locals@[t]]),
            decreases locals@.len() - i,
        {
            let index = locals[i];
            assert(locals@.contains(index));
            assert(index < 4096);
            let block = match map_get(chunk_edits, index) {
                Some(b) => *b,
                None => BlockId::AIR,
            };
            let local = decode_local(index as u16);
            proof {
                crate::chunk::lemma_index_local_roundtrip(index as int);
                lemma_edit_flags(initial.flags_view());
                assert(local_index(local) == index as int);
                assert(block == edits[index]);
                assert(locals@.take(i as int + 1) =~= locals@.take(i as int).push(index));
                assert(!locals@.take(i as int).contains(index)) by {
                    if locals@.take(i as int).contains(index) {
                        let t = choose|t: int| 0 <= t < i && locals@.take(i as int)[t] == index;
                        assert(locals@[t] == locals@[i as int]);
                    }
                }
            }
            let ghost before = *chunk;
            let previous = chunk.set_block(local, block);
            let ghost after_set = *chunk;
            assert(previous == initial.blocks_view()[index as int]);
            if previous != block {
                proof {
                    crate::coordinates::law_split_join_roundtrip(
                        IVec3 { x: 0, y: 0, z: 0 },
                        position,
                        local,
                    );
                }
                let global = global_from_local(position, local);
                let ghost changes_before = changes@;
                changes.push(BlockChange { position: global, previous, current: block });
                proof {
                    let l = index as int;
                    assert(edits.contains_key(l as u128));
                    assert forall|t: int|
                        0 <= t < changes@.len() implies change_from_edit(
                            position,
                            initial.blocks_view(),
                            edits,
                            #[trigger] changes@[t],
                        ) by {
                        if t < changes_before.len() {
                            assert(changes@[t] == changes_before[t]);
                        } else {
                            assert(changes@[t] == (BlockChange {
                                position: global_of(position, index_local(l)),
                                previous: initial.blocks_view()[l],
                                current: edits[l as u128],
                            }));
                        }
                    }
                }
            }
            if block == BlockId::GRASS {
                chunk.flags_mut().insert(ChunkFlags::GRASS_TICKS);
                any_grass = true;
            }
            proof {
                assert forall|j: int|
                    0 <= j < 4096 implies #[trigger] chunk.blocks_view()[j] == if locals@.take(
                        i as int + 1,
                    ).contains(j as u128) {
                        edits[j as u128]
                    } else {
                        initial.blocks_view()[j]
                    } by {
                    assert(chunk.blocks_view() == after_set.blocks_view());
                    vstd::seq_lib::lemma_seq_contains_after_push(
                        locals@.take(i as int),
                        index,
                        j as u128,
                    );
                    if j != index as int {
                        assert(before.blocks_view()[j] == chunk.blocks_view()[j]);
                        assert(locals@.take(i as int + 1).contains(j as u128)
                            == locals@.take(i as int).contains(j as u128));
                    }
                }
                if any_grass {
                    if block != BlockId::GRASS {
                        let t = choose|t: int| 0 <= t < i && #[trigger] edits[locals@[t]] == BlockId::GRASS;
                        assert(0 <= t < i + 1 && edits[locals@[t]] == BlockId::GRASS);
                    } else {
                        assert(edits[locals@[i as int]] == BlockId::GRASS);
                    }
                }
            }
            i = i + 1;
        }
        proof {
            assert(locals@.take(locals@.len() as int) =~= locals@);
            assert(chunk.blocks_view() =~= overlay_edits(initial.blocks_view(), edits));
            if i == 0 {
                assert forall|k: u128| !edits.contains_key(k) by {
                    assert(!locals@.contains(k));
                }
                assert(edits =~= Map::empty());
            } else {
                assert(locals@.contains(locals@[0]));
                assert(edits.contains_key(locals@[0]));
            }
            if any_grass {
                let t = choose|t: int| 0 <= t < i && #[trigger] edits[locals@[t]] == BlockId::GRASS;
                assert(locals@.contains(locals@[t]));
                assert(edits.contains_key(locals@[t]));
            } else {
                assert forall|l: u128| #[trigger] edits.contains_key(l) implies edits[l]
                    != BlockId::GRASS by {
                    assert(locals@.contains(l));
                    let t = choose|t: int| 0 <= t < locals@.len() && locals@[t] == l;
                    assert(edits[locals@[t]] != BlockId::GRASS);
                }
            }
            assert((forall|t: int|
                0 <= t < i ==> initial.blocks_view()[locals@[t] as int]
                    == #[trigger] edits[locals@[t]]) == (forall|l: int|
                0 <= l < 4096 && #[trigger] edits.contains_key(l as u128)
                    ==> initial.blocks_view()[l] == edits[l as u128])) by {
                if forall|t: int|
                    0 <= t < i ==> initial.blocks_view()[locals@[t] as int]
                        == #[trigger] edits[locals@[t]] {
                    assert forall|l: int|
                        0 <= l < 4096 && #[trigger] edits.contains_key(l as u128)
                            implies initial.blocks_view()[l] == edits[l as u128] by {
                        assert(locals@.contains(l as u128));
                        let t = choose|t: int| 0 <= t < locals@.len() && locals@[t] == l as u128;
                        assert(initial.blocks_view()[locals@[t] as int] == edits[locals@[t]]);
                    }
                }
                if forall|l: int|
                    0 <= l < 4096 && #[trigger] edits.contains_key(l as u128)
                        ==> initial.blocks_view()[l] == edits[l as u128] {
                    assert forall|t: int|
                        0 <= t < i implies initial.blocks_view()[locals@[t] as int]
                            == #[trigger] edits[locals@[t]] by {
                        assert(locals@.contains(locals@[t]));
                        assert(edits.contains_key((locals@[t] as int) as u128));
                    }
                }
            }
        }
        changes
    }


    /// Loads a chunk at a chunk position, laying the recorded edits over it,
    /// and returns the chunk it replaced. The chunk and its face neighbours are
    /// queued for remeshing; the chunk is queued for the fluid and physics
    /// systems, for skylight propagation when it holds light sources and for
    /// grass ticks when it holds grass; every cell an edit changed is queued
    /// for light and fluid updates.
    #[verifier::rlimit(50)]
    pub fn insert_chunk(&mut self, position: IVec3, chunk: Chunk) -> (previous: Option<Chunk>)
        requires
            old(self).wf(),
            chunk.wf(),
            chunk_pos_in_range(position),
        ensures
            final(self).wf(),
            previous == old(self).chunk_at(position),
            final(self).chunks_view().dom() == old(self).chunks_view().dom().insert(
                pos_key(position),
            ),
            final(self).chunks_view()[pos_key(position)].blocks_view() == overlay_edits(
                chunk.blocks_view(),
                old(self).chunk_edits(position),
            ),
            final(self).chunks_view()[pos_key(position)].skylight_view() == chunk.skylight_view(),
            forall|k: u128|
                #![trigger final(self).chunks_view()[k]]
                old(self).chunks_view().contains_key(k) && k != pos_key(position) ==> {
                    &&& final(self).chunks_view()[k].blocks_view() == old(
                        self,
                    ).chunks_view()[k].blocks_view()
                    &&& final(self).chunks_view()[k].skylight_view() == old(
                        self,
                    ).chunks_view()[k].skylight_view()
                },
            final(self).edits_view() == old(self).edits_view(),
            final(self).fluid_view() == old(self).fluid_view(),
            final(self).fluid_chunks_view() == old(self).fluid_chunks_view().push(position),
            final(self).physics_chunks_view() == old(self).physics_chunks_view().push(position),
            final(self).removed_queue_view() == old(self).removed_queue_view(),
    {
        let mut chunk = chunk;
        let ghost given = chunk;
        let changes = self.apply_edits(position, &mut chunk);
        proof {
            assert forall|t: int|
                0 <= t < changes@.len() implies global_in_range(#[trigger] changes@[t].position) by {
                lemma_change_in_range(
                    position,
                    given.blocks_view(),
                    self.chunk_edits(position),
                    changes@[t],
                );
            }
        }
        if changes.len() > 0 && chunk.flags().contains(ChunkFlags::FLUID_SOURCES) {
            chunk.rebuild_fluid_source_candidates();
        }
        let has_light_sources = chunk.flags().contains(ChunkFlags::LIGHT_SOURCES);
        let has_grass = chunk.flags().contains(ChunkFlags::GRASS_TICKS);
        let ghost inserted = chunk;
        let key = position_key(position);
        proof {
            crate::geometry::lemma_pos_key(position);
        }
        let previous = map_insert(&mut self.chunks, key, chunk);
        proof {
            assert(self.chunks_view().dom() == old(self).chunks_view().dom().insert(key));
            assert forall|k: u128| #[trigger]
                self.chunks_view().contains_key(k) implies self.chunks_view()[k].wf()
                && is_pos_key(k) && chunk_pos_in_range(key_pos(k)) by {
                if k != key {
                    assert(old(self).chunks_view().contains_key(k));
                }
            }
            assert(self.edits_view() == old(self).edits_view());
            assert(self.fluid_view() == old(self).fluid_view());
        }
        let ghost after_insert = *self;
        self.queue_dirty_chunk(position);
        if has_light_sources {
            self.pending_skylight_chunks.push_back(position);
        }
        self.pending_fluid_chunks.push_back(position);
        self.pending_physics_chunks.push_back(position);
        if has_grass {
            self.pending_grass_chunks.push_back(position);
        }
        let mut i: usize = 0;
        while i < changes.len()
            invariant
                0 <= i <= changes@.len(),
                self.chunks_view() == after_insert.chunks_view(),
                self.edits_view() == old(self).edits_view(),
                self.fluid_view() == old(self).fluid_view(),
                self.fluid_chunks_view() == old(self).fluid_chunks_view().push(position),
                self.physics_chunks_view() == old(self).physics_chunks_view().push(position),
                self.removed_queue_view() == old(self).removed_queue_view(),
                chunk_pos_in_range(position),
                forall|t: int|
                    0 <= t < changes@.len() ==> global_in_range(#[trigger] changes@[t].position),
            decreases changes@.len() - i,
        {
            let change = changes[i];
            self.pending_light_updates.push_back(change);
            self.pending_fluid_updates.push_back(change);
            self.queue_mesh_priority(change.position);
            i = i + 1;
        }
        proof {
            assert(self.wf());
        }
        let ghost before_neighbours = *self;
        self.mark_neighbours_dirty(position);
        proof {
            assert(self.chunks_view().dom() =~= old(self).chunks_view().dom().insert(key));
            assert(self.chunks_view()[key].blocks_view() == inserted.blocks_view());
        }
        previous
    }


    /// Unloads the chunk at a chunk position and returns it. Its fluid states
    /// are dropped, it is queued as removed and its face neighbours are marked
    /// dirty; the edits recorded for it are kept.
    pub fn remove_chunk(&mut self, position: IVec3) -> (removed: Option<Chunk>)
        requires
            old(self).wf(),
            chunk_pos_in_range(position),
        ensures
            final(self).wf(),
            removed == old(self).chunk_at(position),
            final(self).chunks_view().dom() == old(self).chunks_view().dom().remove(
                pos_key(position),
            ),
            forall|k: u128|
                #![trigger final(self).chunks_view()[k]]
                final(self).chunks_view().contains_key(k) ==> {
                    &&& final(self).chunks_view()[k].blocks_view() == old(
                        self,
                    ).chunks_view()[k].blocks_view()
                    &&& final(self).chunks_view()[k].skylight_view() == old(
                        self,
                    ).chunks_view()[k].skylight_view()
                },
            final(self).edits_view() == old(self).edits_view(),
            removed is Some ==> final(self).fluid_view() == fluid_outside(
                old(self).fluid_view(),
                position,
            ),
            removed is None ==> final(self).fluid_view() == old(self).fluid_view(),
            removed is Some ==> final(self).removed_queue_view() == old(
                self,
            ).removed_queue_view().push(position),
            removed is None ==> final(self).removed_queue_view() == old(self).removed_queue_view(),
    {
        let key = position_key(position);
        let removed = map_remove(&mut self.chunks, key);
        proof {
            assert forall|k: u128| #[trigger]
                self.chunks_view().contains_key(k) implies self.chunks_view()[k].wf()
                && is_pos_key(k) && chunk_pos_in_range(key_pos(k)) by {
                assert(old(self).chunks_view().contains_key(k));
            }
            assert(self.edits_view() == old(self).edits_view());
            assert(self.fluid_view() == old(self).fluid_view());
        }
        if removed.is_some() {
            self.drop_fluid_states_in(position);
            self.pending_removed_chunks.push_back(position);
            set_remove(&mut self.queued_dirty_chunks, key);
            self.mark_neighbours_dirty(position);
        } else {
            assert(self.chunks@ =~= old(self).chunks@);
        }
        removed
    }

    /// Number of recorded edits over all chunks.
    pub fn edited_block_count(&self) -> (r: usize)
        requires
            self.wf(),
            edit_cells(self.edits_view()).len() <= usize::MAX,
        ensures
            r == edit_cells(self.edits_view()).len(),
    {
        let ghost edits = self.edits_view();
        let chunk_keys = map_keys(&self.edits);
        proof {
            chunk_keys@.unique_seq_to_set();
            assert(chunk_keys@.to_set() =~= edits.dom());
            lemma_edit_cells_finite(edits, chunk_keys@);
            assert(chunk_keys@.take(0).to_set() =~= Set::empty());
            assert(edit_cells_in(edits, chunk_keys@.take(0).to_set()) =~= Set::empty());
        }
        let mut total: usize = 0;
        let mut i: usize = 0;
        while i < chunk_keys.len()
            invariant
                i <= chunk_keys@.len(),
                edits == self.edits_view(),
                chunk_keys@.no_duplicates(),
                forall|k: u128| edits.contains_key(k) <==> #[trigger] chunk_keys@.contains(k),
                edit_cells(edits).finite(),
                edit_cells(edits).len() <= usize::MAX,
                total == edit_cells_in(edits, chunk_keys@.take(i as int).to_set()).len(),
                edit_cells_in(edits, chunk_keys@.take(i as int).to_set()).finite(),
            decreases chunk_keys@.len() - i,
        {
            let key = chunk_keys[i];
            assert(chunk_keys@.contains(key));
            let ghost before = chunk_keys@.take(i as int).to_set();
            let ghost after = chunk_keys@.take(i as int + 1).to_set();
            let count = match map_get(&self.edits, key) {
                Some(chunk_edits) => {
                    assert(chunk_edits@ == edits[key]);
                    let locals = map_keys(chunk_edits);
                    proof {
                        locals@.unique_seq_to_set();
                        assert(locals@.to_set() =~= edits[key].dom());
                    }
                    map_len(chunk_edits)
                },
                None => 0,
            };
            proof {
                assert(chunk_keys@.take(i as int + 1) =~= chunk_keys@.take(i as int).push(key));
                assert(after =~= before.insert(key)) by {
                    assert forall|k: u128| after.contains(k) <==> before.insert(key).contains(k) by {
                        vstd::seq_lib::lemma_seq_contains_after_push(chunk_keys@.take(i as int), key, k);
                    }
                }
                assert(!before.contains(key)) by {
                    if before.contains(key) {
                        let j = choose|j: int| 0 <= j < i && chunk_keys@.take(i as int)[j] == key;
                        assert(chunk_keys@[j] == chunk_keys@[i as int]);
                    }
                }
                let row = edits[key].dom().map(|l: u128| (key, l));
                assert(edits[key].dom().finite());
                vstd::set_lib::lemma_map_size(edits[key].dom(), row, |l: u128| (key, l));
                assert(edit_cells_in(edits, after) =~= edit_cells_in(edits, before).union(row));
                assert(edit_cells_in(edits, before).disjoint(row));
                vstd::set_lib::lemma_set_disjoint_lens(edit_cells_in(edits, before), row);
                assert(edit_cells_in(edits, after).subset_of(edit_cells(edits)));
                vstd::set_lib::lemma_len_subset(edit_cells_in(edits, after), edit_cells(edits));
            }
            total = total + count;
            i = i + 1;
        }
        proof {
            assert(chunk_keys@.take(chunk_keys@.len() as int) =~= chunk_keys@);
            assert(edit_cells_in(edits, chunk_keys@.to_set()) =~= edit_cells(edits));
        }
        total
    }

    /// Drops the fluid states of the blocks of every chunk whose key is in `chunks`.
    fn drop_fluid_states_in_chunks(&mut self, chunks: &FxHashSet<u128>)
        requires
            old(self).wf(),
        ensures
            final(self).wf(),
            final(self).fluid_view() == fluid_outside_chunks(old(self).fluid_view(), chunks@),
            final(self).chunks_view() == old(self).chunks_view(),
            final(self).edits_view() == old(self).edits_view(),
            final(self).removed_queue_view() == old(self).removed_queue_view(),
    {
        let keys = map_keys(&self.fluid_states);
        let ghost initial = self.fluid_states@;
        assert forall|k: u128| #[trigger] initial.contains_key(k) implies is_pos_key(k) by {
            assert(old(self).fluid_view().contains_key(k));
        }
        let mut i: usize = 0;
        while i < keys.len()
            invariant
                i <= keys@.len(),
                keys@.no_duplicates(),
                forall|k: u128| initial.contains_key(k) <==> #[trigger] keys@.contains(k),
                forall|k: u128| #[trigger] initial.contains_key(k) ==> is_pos_key(k),
                forall|k: u128| #[trigger]
                    self.fluid_states@.contains_key(k) <==> initial.contains_key(k) && !(
                    keys@.take(i as int).contains(k) && chunks@.contains(pos_key(chunk_of(key_pos(k))))),
                forall|k: u128| #[trigger]
                    self.fluid_states@.contains_key(k) ==> self.fluid_states@[k] == initial[k],
                self.chunks@ == old(self).chunks@,
                self.edits@ == old(self).edits@,
                initial == old(self).fluid_states@,
                self.pending_removed_chunks@ == old(self).pending_removed_chunks@,
            decreases keys@.len() - i,
        {
            let k = keys[i];
            assert(keys@.contains(k));
            let (chunk, _) = split_global(key_position(k));
            if set_contains(chunks, position_key(chunk)) {
                map_remove(&mut self.fluid_states, k);
            }
            proof {
                assert forall|j: u128| #[trigger] self.fluid_states@.contains_key(j) <==> initial.contains_key(j)
                    && !(keys@.take(i as int + 1).contains(j) && chunks@.contains(pos_key(chunk_of(key_pos(j))))) by {
                    vstd::seq_lib::lemma_seq_contains_after_push(keys@.take(i as int), k, j);
                    assert(keys@.take(i as int + 1) =~= keys@.take(i as int).push(k));
                }
            }
            i = i + 1;
        }
        proof {
            assert(keys@.take(keys@.len() as int) =~= keys@);
            assert(self.fluid_states@ =~= fluid_outside_chunks(initial, chunks@));
            assert(self.edits_view() == old(self).edits_view());
            assert(self.chunks_view() == old(self).chunks_view());
            assert forall|k: u128| #[trigger] self.fluid_view().contains_key(k) implies is_pos_key(
                k,
            ) by {
                assert(initial.contains_key(k));
            }
            assert forall|k: u128| #[trigger]
                self.chunks_view().contains_key(k) implies self.chunks_view()[k].wf()
                && is_pos_key(k) && chunk_pos_in_range(key_pos(k)) by {
                assert(old(self).chunks_view().contains_key(k));
            }
        }
    }

    /// Unloads the chunks at a list of positions and returns how many were
    /// loaded. When any was, the fluid states of every listed chunk are
    /// dropped and the face neighbours of the unloaded chunks that are not
    /// listed themselves are marked dirty; the unloaded chunks are queued as
    /// removed, in list order. Recorded edits are kept.
    pub fn remove_chunks(&mut self, positions: &Vec<IVec3>) -> (r: usize)
        requires
            old(self).wf(),
            forall|i: int| 0 <= i < positions@.len() ==> chunk_pos_in_range(#[trigger] positions@[i]),
        ensures
            final(self).wf(),
            r == removal_order(old(self).chunks_view().dom(), positions@).len(),
            r == old(self).chunks_view().dom().len() - final(self).chunks_view().dom().len(),
            final(self).chunks_view().dom() == old(self).chunks_view().dom().difference(
                position_keys(positions@),
            ),
            forall|k: u128|
                #![trigger final(self).chunks_view()[k]]
                final(self).chunks_view().contains_key(k) ==> {
                    &&& final(self).chunks_view()[k].blocks_view() == old(
                        self,
                    ).chunks_view()[k].blocks_view()
                    &&& final(self).chunks_view()[k].skylight_view() == old(
                        self,
                    ).chunks_view()[k].skylight_view()
                },
            final(self).edits_view() == old(self).edits_view(),
            r == 0 ==> final(self).fluid_view() == old(self).fluid_view(),
            r > 0 ==> final(self).fluid_view() == fluid_outside_chunks(
                old(self).fluid_view(),
                position_keys(positions@),
            ),
            final(self).removed_queue_view() == old(self).removed_queue_view() + removal_order(
                old(self).chunks_view().dom(),
                positions@,
            ),
    {
        let ghost loaded = old(self).chunks_view().dom();
        proof {
            lemma_removal_count(loaded, positions@);
        }
        if positions.len() == 0 {
            proof {
                assert(position_keys(positions@) =~= Set::empty());
                assert(self.chunks_view().dom() =~= loaded.difference(position_keys(positions@)));
                assert(self.removed_queue_view() =~= old(self).removed_queue_view() + Seq::empty());
            }
            return 0;
        }
        let mut requested = set_new();
        let mut removed: Vec<IVec3> = Vec::new();
        let mut i: usize = 0;
        while i < positions.len()
            invariant
                i <= positions@.len(),
                loaded == old(self).chunks_view().dom(),
                forall|j: int| 0 <= j < positions@.len() ==> chunk_pos_in_range(#[trigger] positions@[j]),
                requested@ == position_keys(positions@.take(i as int)),
                self.chunks_view().dom() == loaded.difference(position_keys(positions@.take(i as int))),
                forall|k: u128|
                    #![trigger self.chunks_view()[k]]
                    self.chunks_view().contains_key(k) ==> self.chunks_view()[k] == old(
                        self,
                    ).chunks_view()[k],
                removed@ == removal_order(loaded, positions@.take(i as int)),
                self.removed_queue_view() == old(self).removed_queue_view() + removed@,
                self.edits_view() == old(self).edits_view(),
                self.fluid_view() == old(self).fluid_view(),
                old(self).wf(),
            decreases positions@.len() - i,
        {
            let position = positions[i];
            let key = position_key(position);
            let ghost earlier = positions@.take(i as int);
            proof {
                assert(positions@.take(i as int + 1) =~= earlier.push(position));
                assert(positions@.take(i as int + 1).drop_last() =~= earlier);
                assert(position_keys(earlier.push(position)) =~= position_keys(earlier).insert(key)) by {
                    assert forall|k: u128| position_keys(earlier.push(position)).contains(k) implies #[trigger] position_keys(earlier).insert(key).contains(k) by {
                        let j = choose|j: int| 0 <= j < earlier.push(position).len() && pos_key(earlier.push(position)[j]) == k;
                        if j < earlier.len() {
                            assert(pos_key(earlier[j]) == k);
                        }
                    }
                    assert forall|k: u128| position_keys(earlier).insert(key).contains(k) implies #[trigger] position_keys(earlier.push(position)).contains(k) by {
                        if k == key {
                            assert(earlier.push(position)[earlier.len() as int] == position);
                        } else {
                            let j = choose|j: int| 0 <= j < earlier.len() && pos_key(earlier[j]) == k;
                            assert(earlier.push(position)[j] == earlier[j]);
                        }
                    }
                }
            }
            set_insert(&mut requested, key);
            let was_loaded = map_remove(&mut self.chunks, key);
            if was_loaded.is_some() {
                removed.push(position);
                self.pending_removed_chunks.push_back(position);
                set_remove(&mut self.queued_dirty_chunks, key);
                set_remove(&mut self.queued_mesh_priorities, key);
                set_remove(&mut self.queued_grass_light_chunks, key);
            }
            proof {
                assert(self.chunks_view().dom() =~= loaded.difference(position_keys(positions@.take(i as int + 1))));
                assert(self.removed_queue_view() =~= old(self).removed_queue_view() + removed@);
                assert(self.edits_view() == old(self).edits_view());
            }
            i = i + 1;
        }
        proof {
            assert(positions@.take(positions@.len() as int) =~= positions@);
            assert forall|k: u128| #[trigger]
                self.chunks_view().contains_key(k) implies self.chunks_view()[k].wf()
                && is_pos_key(k) && chunk_pos_in_range(key_pos(k)) by {
                assert(old(self).chunks_view().contains_key(k));
            }
        }
        let count = removed.len();
        if count == 0 {
            return 0;
        }
        let ghost before_drop = *self;
        self.drop_fluid_states_in_chunks(&requested);
        proof {
            lemma_removal_order_in_range(loaded, positions@);
        }
        let mut r: usize = 0;
        while r < removed.len()
            invariant
                r <= removed@.len(),
                count == removed@.len(),
                self.wf(),
                requested@ == position_keys(positions@),
                forall|j: int| 0 <= j < positions@.len() ==> chunk_pos_in_range(#[trigger] positions@[j]),
                removed@ == removal_order(loaded, positions@),
                forall|t: int| 0 <= t < removed@.len() ==> chunk_pos_in_range(#[trigger] removed@[t]),
                same_cells(before_drop.chunks_view(), self.chunks_view()),
                self.edits_view() == old(self).edits_view(),
                self.fluid_view() == fluid_outside_chunks(old(self).fluid_view(), position_keys(positions@)),
                self.removed_queue_view() == old(self).removed_queue_view() + removed@,
            decreases removed@.len() - r,
        {
            let position = removed[r];
            let neighbours = [
                IVec3 { x: position.x + 1, ..position },
                IVec3 { x: position.x - 1, ..position },
                IVec3 { y: position.y + 1, ..position },
                IVec3 { y: position.y - 1, ..position },
                IVec3 { z: position.z + 1, ..position },
                IVec3 { z: position.z - 1, ..position },
            ];
            let mut d: usize = 0;
            while d < 6
                invariant
                    d <= 6,
                    self.wf(),
                    same_cells(before_drop.chunks_view(), self.chunks_view()),
                    self.edits_view() == old(self).edits_view(),
                    self.fluid_view() == fluid_outside_chunks(old(self).fluid_view(), position_keys(positions@)),
                    self.removed_queue_view() == old(self).removed_queue_view() + removed@,
                decreases 6 - d,
            {
                let neighbour = neighbours[d];
                if !set_contains(&requested, position_key(neighbour)) {
                    self.mark_chunk_dirty(neighbour);
                }
                d = d + 1;
            }
            r = r + 1;
        }
        count
    }

    /// Drops the fluid states of the blocks of a chunk.
    fn drop_fluid_states_in(&mut self, position: IVec3)
        requires
            old(self).wf(),
        ensures
            final(self).wf(),
            final(self).fluid_view() == fluid_outside(old(self).fluid_view(), position),
            final(self).chunks_view() == old(self).chunks_view(),
            final(self).edits_view() == old(self).edits_view(),
            final(self).light_updates_view() == old(self).light_updates_view(),
            final(self).fluid_updates_view() == old(self).fluid_updates_view(),
            final(self).removed_queue_view() == old(self).removed_queue_view(),
            final(self).fluid_chunks_view() == old(self).fluid_chunks_view(),
            final(self).physics_chunks_view() == old(self).physics_chunks_view(),
            final(self).skylight_chunks_view() == old(self).skylight_chunks_view(),
            final(self).grass_chunks_view() == old(self).grass_chunks_view(),
    {
        let keys = map_keys(&self.fluid_states);
        let ghost initial = self.fluid_states@;
        assert forall|k: u128| #[trigger] initial.contains_key(k) implies is_pos_key(k) by {
            assert(old(self).fluid_view().contains_key(k));
        }
        let mut i: usize = 0;
        while i < keys.len()
            invariant
                i <= keys@.len(),
                keys@.no_duplicates(),
                forall|k: u128| initial.contains_key(k) <==> #[trigger] keys@.contains(k),
                forall|k: u128| #[trigger] initial.contains_key(k) ==> is_pos_key(k),
                forall|k: u128| #[trigger]
                    self.fluid_states@.contains_key(k) <==> initial.contains_key(k) && !(
                    keys@.take(i as int).contains(k) && chunk_of(key_pos(k)) == position),
                forall|k: u128| #[trigger]
                    self.fluid_states@.contains_key(k) ==> self.fluid_states@[k] == initial[k],
                self.chunks@ == old(self).chunks@,
                self.edits@ == old(self).edits@,
                initial == old(self).fluid_states@,
                self.pending_light_updates@ == old(self).pending_light_updates@,
                self.pending_fluid_updates@ == old(self).pending_fluid_updates@,
                self.pending_removed_chunks@ == old(self).pending_removed_chunks@,
                self.pending_fluid_chunks@ == old(self).pending_fluid_chunks@,
                self.pending_physics_chunks@ == old(self).pending_physics_chunks@,
                self.pending_skylight_chunks@ == old(self).pending_skylight_chunks@,
                self.pending_grass_chunks@ == old(self).pending_grass_chunks@,
            decreases keys@.len() - i,
        {
            let k = keys[i];
            assert(keys@.contains(k));
            let (chunk, _) = split_global(key_position(k));
            if chunk == position {
                map_remove(&mut self.fluid_states, k);
            }
            proof {
                assert forall|j: u128| #[trigger] self.fluid_states@.contains_key(j) <==> initial.contains_key(j)
                    && !(keys@.take(i as int + 1).contains(j) && chunk_of(key_pos(j)) == position) by {
                    vstd::seq_lib::lemma_seq_contains_after_push(keys@.take(i as int), k, j);
                    assert(keys@.take(i as int + 1) =~= keys@.take(i as int).push(k));
                }
            }
            i = i + 1;
        }
        proof {
            assert(keys@.take(keys@.len() as int) =~= keys@);
            assert(self.fluid_states@ =~= fluid_outside(initial, position));
            assert(self.edits_view() == old(self).edits_view());
            assert(self.chunks_view() == old(self).chunks_view());
            assert forall|k: u128| #[trigger] self.fluid_view().contains_key(k) implies is_pos_key(
                k,
            ) by {
                assert(initial.contains_key(k));
            }
            assert forall|k: u128| #[trigger]
                self.chunks_view().contains_key(k) implies self.chunks_view()[k].wf()
                && is_pos_key(k) && chunk_pos_in_range(key_pos(k)) by {
                assert(old(self).chunks_view().contains_key(k));
            }
        }
    }


    /// Stores a skylight level at a world position and returns the level it
    /// replaced; `None`, changing nothing, where no chunk is loaded.
    pub fn set_skylight(&mut self, global: IVec3, level: u8) -> (r: Option<u8>)
        requires
            old(self).wf(),
            level <= MAX_SKYLIGHT,
        ensures
            final(self).wf(),
            old(self).chunk_at(chunk_of(global)) is None ==> r.is_none() && *final(self) == *old(
                self,
            ),
            old(self).chunk_at(chunk_of(global)) is Some ==> r == Some(old(self).skylight_at(global)),
            forall|g: IVec3| #[trigger]
                final(self).skylight_at(g) == if g == global && old(self).chunk_at(
                    chunk_of(global),
                ) is Some {
                    level
                } else {
                    old(self).skylight_at(g)
                },
            forall|g: IVec3| #[trigger] final(self).block_at(g) == old(self).block_at(g),
            final(self).chunks_view().dom() == old(self).chunks_view().dom(),
            final(self).edits_view() == old(self).edits_view(),
            final(self).fluid_view() == old(self).fluid_view(),
    {
        let (chunk_position, local) = split_global(global);
        let key = position_key(chunk_position);
        if !map_contains(&self.chunks, key) {
            return None;
        }
        let mut chunk = match map_remove(&mut self.chunks, key) {
            Some(c) => {
                assert(old(self).chunks_view().contains_key(key));
                c
            },
            None => Chunk::empty(),
        };
        let previous = chunk.set_skylight(local, level);
        map_insert(&mut self.chunks, key, chunk);
        proof {
            assert forall|k: u128| #[trigger]
                self.chunks_view().contains_key(k) implies self.chunks_view()[k].wf()
                && is_pos_key(k) && chunk_pos_in_range(key_pos(k)) by {
                if k != key {
                    assert(old(self).chunks_view().contains_key(k));
                }
            }
            assert(self.edits_view() == old(self).edits_view());
            assert(self.fluid_view() == old(self).fluid_view());
            assert(self.chunks_view().dom() =~= old(self).chunks_view().dom());
            crate::coordinates::law_split_join_roundtrip(global, chunk_position, local);
            assert forall|g: IVec3| #[trigger]
                self.skylight_at(g) == if g == global {
                    level
                } else {
                    old(self).skylight_at(g)
                } by {
                crate::coordinates::law_split_join_roundtrip(g, chunk_position, local);
                if chunk_of(g) == chunk_position && g != global {
                    assert(local_of(g) != local);
                    assert(local_index(local_of(g)) != local_index(local)) by {
                        crate::chunk::law_local_encoding_roundtrip(
                            local_of(g).x as int, local_of(g).y as int, local_of(g).z as int, 0);
                        crate::chunk::law_local_encoding_roundtrip(
                            local.x as int, local.y as int, local.z as int, 0);
                    }
                }
            }
        }
        Some(previous)
    }

    /// Darkens every loaded chunk.
    pub fn clear_skylight(&mut self)
        requires
            old(self).wf(),
        ensures
            final(self).wf(),
            forall|g: IVec3| #[trigger] final(self).skylight_at(g) == 0,
            forall|g: IVec3| #[trigger] final(self).block_at(g) == old(self).block_at(g),
            final(self).chunks_view().dom() == old(self).chunks_view().dom(),
            final(self).edits_view() == old(self).edits_view(),
            final(self).fluid_view() == old(self).fluid_view(),
    {
        let keys = map_keys(&self.chunks);
        let mut i: usize = 0;
        while i < keys.len()
            invariant
                i <= keys@.len(),
                keys@.no_duplicates(),
                forall|k: u128| old(self).chunks_view().contains_key(k) <==> #[trigger] keys@.contains(k),
                self.wf(),
                self.chunks_view().dom() == old(self).chunks_view().dom(),
                self.edits_view() == old(self).edits_view(),
                self.fluid_view() == old(self).fluid_view(),
                forall|k: u128|
                    #![trigger self.chunks_view()[k]]
                    self.chunks_view().contains_key(k) ==> self.chunks_view()[k].blocks_view()
                        == old(self).chunks_view()[k].blocks_view(),
                forall|k: u128|
                    #![trigger self.chunks_view()[k]]
                    self.chunks_view().contains_key(k) && keys@.take(i as int).contains(k) ==> (
                    forall|j: int| 0 <= j < 4096 ==> #[trigger] self.chunks_view()[k].skylight_view()[j] == 0),
            decreases keys@.len() - i,
        {
            let key = keys[i];
            assert(keys@.contains(key));
            let ghost before = *self;
            match map_remove(&mut self.chunks, key) {
                Some(mut chunk) => {
                    assert(before.chunks_view().contains_key(key));
                    chunk.clear_skylight();
                    map_insert(&mut self.chunks, key, chunk);
                },
                None => {},
            }
            proof {
                assert(self.chunks_view().dom() =~= before.chunks_view().dom());
                assert(self.edits_view() == before.edits_view());
                assert(self.fluid_view() == before.fluid_view());
                assert forall|k: u128| #[trigger]
                    self.chunks_view().contains_key(k) implies self.chunks_view()[k].wf()
                    && is_pos_key(k) && chunk_pos_in_range(key_pos(k)) by {
                    assert(before.chunks_view().contains_key(k));
                }
                assert(keys@.take(i as int + 1) =~= keys@.take(i as int).push(key));
                assert forall|k: u128|
                    #![trigger self.chunks_view()[k]]
                    self.chunks_view().contains_key(k) && keys@.take(i as int + 1).contains(k) implies (
                    forall|j: int| 0 <= j < 4096 ==> #[trigger] self.chunks_view()[k].skylight_view()[j] == 0) by {
                    vstd::seq_lib::lemma_seq_contains_after_push(keys@.take(i as int), key, k);
                    if k != key {
                        assert(before.chunks_view().contains_key(k));
                    }
                }
                assert forall|k: u128|
                    #![trigger self.chunks_view()[k]]
                    self.chunks_view().contains_key(k) implies self.chunks_view()[k].blocks_view()
                        == old(self).chunks_view()[k].blocks_view() by {
                    assert(before.chunks_view().contains_key(k));
                }
            }
            i = i + 1;
        }
        proof {
            assert(keys@.take(keys@.len() as int) =~= keys@);
            assert forall|g: IVec3| #[trigger] self.skylight_at(g) == 0 by {
                let k = pos_key(chunk_of(g));
                if self.chunks_view().contains_key(k) {
                    assert(keys@.contains(k));
                    crate::coordinates::law_split_join_roundtrip(g, chunk_of(g), local_of(g));
                    crate::chunk::law_local_encoding_roundtrip(
                        local_of(g).x as int, local_of(g).y as int, local_of(g).z as int, 0);
                    assert(0 <= local_index(local_of(g)) < 4096);
                    assert(self.chunks_view()[k].skylight_view()[local_index(local_of(g))] == 0);
                }
            }
            assert forall|g: IVec3| #[trigger] self.block_at(g) == old(self).block_at(g) by {
                let k = pos_key(chunk_of(g));
                if self.chunks_view().contains_key(k) {
                    assert(self.chunks_view()[k].blocks_view() == old(self).chunks_view()[k].blocks_view());
                }
            }
        }
    }

    /// Marks every loaded chunk dirty and queues it for remeshing.
    pub fn mark_all_dirty(&mut self)
        requires
            old(self).wf(),
        ensures
            only_flags_changed(*old(self), *final(self)),
            forall|k: u128|
                #![trigger final(self).chunks_view()[k]]
                final(self).chunks_view().contains_key(k) ==> bits_contain(
                    final(self).chunks_view()[k].flags_view(),
                    ChunkFlags::DIRTY,
                ),
    {
        let keys = map_keys(&self.chunks);
        let mut i: usize = 0;
        while i < keys.len()
            invariant
                i <= keys@.len(),
                keys@.no_duplicates(),
                forall|k: u128| old(self).chunks_view().contains_key(k) <==> #[trigger] keys@.contains(k),
                only_flags_changed(*old(self), *self),
                forall|k: u128|
                    #![trigger self.chunks_view()[k]]
                    self.chunks_view().contains_key(k) && keys@.take(i as int).contains(k)
                        ==> bits_contain(self.chunks_view()[k].flags_view(), ChunkFlags::DIRTY),
            decreases keys@.len() - i,
        {
            let key = keys[i];
            assert(keys@.contains(key));
            assert(is_pos_key(key));
            let position = key_position(key);
            let ghost before = *self;
            self.mark_chunk_dirty(position);
            proof {
                assert(keys@.take(i as int + 1) =~= keys@.take(i as int).push(key));
                assert forall|k: u128|
                    #![trigger self.chunks_view()[k]]
                    self.chunks_view().contains_key(k) && keys@.take(i as int + 1).contains(k)
                        implies bits_contain(self.chunks_view()[k].flags_view(), ChunkFlags::DIRTY) by {
                    vstd::seq_lib::lemma_seq_contains_after_push(keys@.take(i as int), key, k);
                    if k == key {
                        let b = before.chunks_view()[k].flags_view();
                        assert(((b | 1u8) & !2u8) & 1u8 == 1u8) by (bit_vector);
                    } else {
                        assert(before.chunks_view().contains_key(k));
                    }
                }
            }
            i = i + 1;
        }
        proof {
            assert(keys@.take(keys@.len() as int) =~= keys@);
        }
    }

    /// Records an edit loaded from a save without touching any loaded chunk.
    pub fn restore_edit(&mut self, global: IVec3, block: BlockId)
        requires
            old(self).wf(),
        ensures
            final(self).wf(),
            final(self).edits_view() == with_edit(
                old(self).edits_view(),
                pos_key(chunk_of(global)),
                local_index(local_of(global)) as u128,
                block,
            ),
            final(self).chunks_view() == old(self).chunks_view(),
            final(self).fluid_view() == old(self).fluid_view(),
    {
        let (chunk_position, local) = split_global(global);
        proof {
            crate::geometry::lemma_pos_key(chunk_position);
            crate::coordinates::law_split_join_roundtrip(global, chunk_position, local);
        }
        self.record_edit(position_key(chunk_position), local, block);
    }

    /// Moves out the block changes that still have to be relit.
    pub fn take_pending_light_updates(&mut self) -> (r: Vec<BlockChange>)
        ensures
            r@ == old(self).light_updates_view(),
            final(self).light_updates_view().len() == 0,
            final(self).chunks_view() == old(self).chunks_view(),
            final(self).edits_view() == old(self).edits_view(),
            final(self).fluid_view() == old(self).fluid_view(),
    {
        drain_queue(&mut self.pending_light_updates)
    }

    /// Moves out the block changes the fluid simulation has to look at.
    pub fn take_pending_fluid_updates(&mut self) -> (r: Vec<BlockChange>)
        ensures
            r@ == old(self).fluid_updates_view(),
            final(self).fluid_updates_view().len() == 0,
            final(self).chunks_view() == old(self).chunks_view(),
            final(self).edits_view() == old(self).edits_view(),
            final(self).fluid_view() == old(self).fluid_view(),
    {
        drain_queue(&mut self.pending_fluid_updates)
    }

    /// Moves out the chunks whose skylight has to be propagated.
    pub fn take_pending_skylight_chunks(&mut self) -> (r: Vec<IVec3>)
        ensures
            r@ == old(self).skylight_chunks_view(),
            final(self).skylight_chunks_view().len() == 0,
            final(self).chunks_view() == old(self).chunks_view(),
            final(self).edits_view() == old(self).edits_view(),
            final(self).fluid_view() == old(self).fluid_view(),
    {
        drain_queue(&mut self.pending_skylight_chunks)
    }

    /// Moves out the chunks queued for remeshing; each may be queued again.
    pub fn take_dirty_chunks(&mut self) -> (r: Vec<IVec3>)
        ensures
            r@ == old(self).dirty_queue_view(),
            final(self).dirty_queue_view().len() == 0,
            final(self).chunks_view() == old(self).chunks_view(),
            final(self).edits_view() == old(self).edits_view(),
            final(self).fluid_view() == old(self).fluid_view(),
    {
        set_clear(&mut self.queued_dirty_chunks);
        drain_queue(&mut self.pending_dirty_chunks)
    }

    /// Moves out the chunks unloaded since the last call.
    pub fn take_removed_chunks(&mut self) -> (r: Vec<IVec3>)
        ensures
            r@ == old(self).removed_queue_view(),
            final(self).removed_queue_view().len() == 0,
            final(self).chunks_view() == old(self).chunks_view(),
            final(self).edits_view() == old(self).edits_view(),
            final(self).fluid_view() == old(self).fluid_view(),
    {
        drain_queue(&mut self.pending_removed_chunks)
    }

    /// Moves out the chunks whose grass has to be registered.
    pub fn take_pending_grass_chunks(&mut self) -> (r: Vec<IVec3>)
        ensures
            r@ == old(self).grass_chunks_view(),
            final(self).grass_chunks_view().len() == 0,
            final(self).chunks_view() == old(self).chunks_view(),
            final(self).edits_view() == old(self).edits_view(),
            final(self).fluid_view() == old(self).fluid_view(),
    {
        drain_queue(&mut self.pending_grass_chunks)
    }

    /// Moves out the chunks the fluid simulation has to register.
    pub fn take_pending_fluid_chunks(&mut self) -> (r: Vec<IVec3>)
        ensures
            r@ == old(self).fluid_chunks_view(),
            final(self).fluid_chunks_view().len() == 0,
            final(self).chunks_view() == old(self).chunks_view(),
            final(self).edits_view() == old(self).edits_view(),
            final(self).fluid_view() == old(self).fluid_view(),
    {
        drain_queue(&mut self.pending_fluid_chunks)
    }

    /// Moves out the chunks the falling-block physics has to register.
    pub fn take_pending_physics_chunks(&mut self) -> (r: Vec<IVec3>)
        ensures
            r@ == old(self).physics_chunks_view(),
            final(self).physics_chunks_view().len() == 0,
            final(self).chunks_view() == old(self).chunks_view(),
            final(self).edits_view() == old(self).edits_view(),
            final(self).fluid_view() == old(self).fluid_view(),
    {
        drain_queue(&mut self.pending_physics_chunks)
    }

    /// Moves out the chunks whose grass must react to changed light; each may be queued again.
    pub fn take_grass_light_chunks(&mut self) -> (r: Vec<IVec3>)
        ensures
            r@ == old(self).grass_light_chunks_view(),
            final(self).grass_light_chunks_view().len() == 0,
            final(self).chunks_view() == old(self).chunks_view(),
            final(self).edits_view() == old(self).edits_view(),
            final(self).fluid_view() == old(self).fluid_view(),
    {
        set_clear(&mut self.queued_grass_light_chunks);
        drain_queue(&mut self.pending_grass_light_chunks)
    }

    /// Marks a chunk and its six face neighbours dirty.
    fn mark_lit_chunk(&mut self, position: IVec3)
        requires
            old(self).wf(),
            neighbours_fit(position),
        ensures
            final(self).wf(),
            same_cells(old(self).chunks_view(), final(self).chunks_view()),
            final(self).edits_view() == old(self).edits_view(),
            final(self).fluid_view() == old(self).fluid_view(),
            final(self).light_updates_view() == old(self).light_updates_view(),
            final(self).fluid_updates_view() == old(self).fluid_updates_view(),
            final(self).removed_queue_view() == old(self).removed_queue_view(),
            final(self).fluid_chunks_view() == old(self).fluid_chunks_view(),
            final(self).physics_chunks_view() == old(self).physics_chunks_view(),
            final(self).skylight_chunks_view() == old(self).skylight_chunks_view(),
            final(self).grass_chunks_view() == old(self).grass_chunks_view(),
            final(self).grass_light_chunks_view() == old(self).grass_light_chunks_view(),
            final(self).grass_light_queued_view() == old(self).grass_light_queued_view(),
            forall|k: u128|
                #![trigger final(self).chunks_view()[k]]
                old(self).chunks_view().contains_key(k) ==> final(self).chunks_view()[k].flags_view()
                    == if touches(position, key_pos(k)) {
                    edited_flags(old(self).chunks_view()[k].flags_view())
                } else {
                    old(self).chunks_view()[k].flags_view()
                },
    {
        let neighbours = [
            position,
            IVec3 { x: position.x + 1, ..position },
            IVec3 { x: position.x - 1, ..position },
            IVec3 { y: position.y + 1, ..position },
            IVec3 { y: position.y - 1, ..position },
            IVec3 { z: position.z + 1, ..position },
            IVec3 { z: position.z - 1, ..position },
        ];
        let mut i: usize = 0;
        while i < 7
            invariant
                i <= 7,
                self.wf(),
                neighbours@ == seq![
                    position,
                    IVec3 { x: (position.x + 1) as i32, ..position },
                    IVec3 { x: (position.x - 1) as i32, ..position },
                    IVec3 { y: (position.y + 1) as i32, ..position },
                    IVec3 { y: (position.y - 1) as i32, ..position },
                    IVec3 { z: (position.z + 1) as i32, ..position },
                    IVec3 { z: (position.z - 1) as i32, ..position },
                ],
                same_cells(old(self).chunks_view(), self.chunks_view()),
                self.edits_view() == old(self).edits_view(),
                self.fluid_view() == old(self).fluid_view(),
                self.light_updates_view() == old(self).light_updates_view(),
                self.fluid_updates_view() == old(self).fluid_updates_view(),
                self.removed_queue_view() == old(self).removed_queue_view(),
                self.fluid_chunks_view() == old(self).fluid_chunks_view(),
                self.physics_chunks_view() == old(self).physics_chunks_view(),
                self.skylight_chunks_view() == old(self).skylight_chunks_view(),
                self.grass_chunks_view() == old(self).grass_chunks_view(),
                self.grass_light_chunks_view() == old(self).grass_light_chunks_view(),
                self.grass_light_queued_view() == old(self).grass_light_queued_view(),
                forall|k: u128|
                    #![trigger self.chunks_view()[k]]
                    old(self).chunks_view().contains_key(k) ==> self.chunks_view()[k].flags_view()
                        == if exists|j: int| 0 <= j < i && key_pos(k) == #[trigger] neighbours@[j] {
                        edited_flags(old(self).chunks_view()[k].flags_view())
                    } else {
                        old(self).chunks_view()[k].flags_view()
                    },
            decreases 7 - i,
        {
            let ghost before = *self;
            let target = neighbours[i];
            self.mark_chunk_dirty(target);
            proof {
                assert forall|k: u128| #![trigger self.chunks_view()[k]]
                    old(self).chunks_view().contains_key(k) implies self.chunks_view()[k].flags_view()
                    == if exists|j: int| 0 <= j < i + 1 && key_pos(k) == #[trigger] neighbours@[j] {
                    edited_flags(old(self).chunks_view()[k].flags_view())
                } else {
                    old(self).chunks_view()[k].flags_view()
                } by {
                    assert(before.chunks_view().contains_key(k));
                    assert(is_pos_key(k));
                    crate::geometry::lemma_key_pos(k);
                    let earlier = exists|j: int| 0 <= j < i && key_pos(k) == #[trigger] neighbours@[j];
                    if k == pos_key(target) {
                        assert(key_pos(k) == target);
                        assert(key_pos(k) == neighbours@[i as int]);
                        lemma_edit_flags(old(self).chunks_view()[k].flags_view());
                        if earlier {
                            let j = choose|j: int| 0 <= j < i && key_pos(k) == #[trigger] neighbours@[j];
                            assert(key_pos(k) == neighbours@[j]);
                        }
                    } else {
                        assert(self.chunks_view()[k] == before.chunks_view()[k]);
                        if exists|j: int| 0 <= j < i + 1 && key_pos(k) == #[trigger] neighbours@[j] {
                            let j = choose|j: int| 0 <= j < i + 1 && key_pos(k) == #[trigger] neighbours@[j];
                            if j == i {
                                crate::geometry::lemma_pos_key(target);
                                assert(pos_key(key_pos(k)) == pos_key(target));
                            }
                            assert(earlier);
                        }
                    }
                }
            }
            i = i + 1;
        }
        proof {
            assert forall|k: u128| #![trigger self.chunks_view()[k]]
                old(self).chunks_view().contains_key(k) implies (exists|j: int|
                0 <= j < 7 && key_pos(k) == #[trigger] neighbours@[j]) == touches(position, key_pos(k)) by {
                let c = key_pos(k);
                if touches(position, c) {
                    if c == neighbours@[0] {
                    } else if c == neighbours@[1] {
                    } else if c == neighbours@[2] {
                    } else if c == neighbours@[3] {
                    } else if c == neighbours@[4] {
                    } else if c == neighbours@[5] {
                    } else {
                        assert(c == neighbours@[6]);
                    }
                }
            }
        }
    }

    /// Queues each chunk whose light changed for its grass once until the
    /// queue is taken, and marks it and its six face neighbours dirty.
    pub fn mark_lighting_chunks_dirty(&mut self, changed: &Vec<IVec3>)
        requires
            old(self).wf(),
            forall|i: int| 0 <= i < changed@.len() ==> neighbours_fit(#[trigger] changed@[i]),
        ensures
            final(self).wf(),
            same_cells(old(self).chunks_view(), final(self).chunks_view()),
            final(self).edits_view() == old(self).edits_view(),
            final(self).fluid_view() == old(self).fluid_view(),
            final(self).light_updates_view() == old(self).light_updates_view(),
            final(self).fluid_updates_view() == old(self).fluid_updates_view(),
            final(self).removed_queue_view() == old(self).removed_queue_view(),
            (final(self).grass_light_chunks_view(), final(self).grass_light_queued_view())
                == queue_once(
                old(self).grass_light_chunks_view(),
                old(self).grass_light_queued_view(),
                changed@,
            ),
            forall|k: u128|
                #![trigger final(self).chunks_view()[k]]
                old(self).chunks_view().contains_key(k) ==> final(self).chunks_view()[k].flags_view()
                    == if touched_by(changed@, key_pos(k)) {
                    edited_flags(old(self).chunks_view()[k].flags_view())
                } else {
                    old(self).chunks_view()[k].flags_view()
                },
    {
        let mut i: usize = 0;
        while i < changed.len()
            invariant
                i <= changed@.len(),
                self.wf(),
                forall|j: int| 0 <= j < changed@.len() ==> neighbours_fit(#[trigger] changed@[j]),
                same_cells(old(self).chunks_view(), self.chunks_view()),
                self.edits_view() == old(self).edits_view(),
                self.fluid_view() == old(self).fluid_view(),
                self.light_updates_view() == old(self).light_updates_view(),
                self.fluid_updates_view() == old(self).fluid_updates_view(),
                self.removed_queue_view() == old(self).removed_queue_view(),
                (self.grass_light_chunks_view(), self.grass_light_queued_view()) == queue_once(
                    old(self).grass_light_chunks_view(),
                    old(self).grass_light_queued_view(),
                    changed@.take(i as int),
                ),
                forall|k: u128|
                    #![trigger self.chunks_view()[k]]
                    old(self).chunks_view().contains_key(k) ==> self.chunks_view()[k].flags_view()
                        == if touched_by(changed@.take(i as int), key_pos(k)) {
                        edited_flags(old(self).chunks_view()[k].flags_view())
                    } else {
                        old(self).chunks_view()[k].flags_view()
                    },
            decreases changed@.len() - i,
        {
            let position = changed[i];
            let key = position_key(position);
            if set_insert(&mut self.queued_grass_light_chunks, key) {
                self.pending_grass_light_chunks.push_back(position);
            }
            let ghost queued = *self;
            proof {
                assert(changed@.take(i + 1).drop_last() =~= changed@.take(i as int));
                assert(same_cells(old(self).chunks_view(), queued.chunks_view()));
            }
            self.mark_lit_chunk(position);
            proof {
                let prefix = changed@.take(i as int);
                let longer = changed@.take(i + 1);
                assert forall|k: u128| #![trigger self.chunks_view()[k]]
                    old(self).chunks_view().contains_key(k) implies self.chunks_view()[k].flags_view()
                    == if touched_by(longer, key_pos(k)) {
                    edited_flags(old(self).chunks_view()[k].flags_view())
                } else {
                    old(self).chunks_view()[k].flags_view()
                } by {
                    let c = key_pos(k);
                    assert(queued.chunks_view().contains_key(k));
                    lemma_edit_flags(old(self).chunks_view()[k].flags_view());
                    if touched_by(prefix, c) {
                        let j = choose|j: int| 0 <= j < prefix.len() && #[trigger] touches(prefix[j], c);
                        assert(longer[j] == prefix[j]);
                        assert(touched_by(longer, c));
                    }
                    if touches(position, c) {
                        assert(longer[i as int] == position);
                        assert(touched_by(longer, c));
                    }
                    if touched_by(longer, c) && !touches(position, c) {
                        let j = choose|j: int| 0 <= j < longer.len() && #[trigger] touches(longer[j], c);
                        assert(j != i);
                        assert(prefix[j] == longer[j]);
                        assert(touched_by(prefix, c));
                    }
                }
            }
            i = i + 1;
        }
        proof {
            assert(changed@.take(changed@.len() as int) =~= changed@);
        }
    }

    /// Moves out the chunks queued for priority remeshing; each may be queued again.
    pub fn take_mesh_priorities(&mut self) -> (r: Vec<IVec3>)
        ensures
            r@ == old(self).mesh_priorities_view(),
            final(self).mesh_priorities_view().len() == 0,
            final(self).chunks_view() == old(self).chunks_view(),
            final(self).edits_view() == old(self).edits_view(),
            final(self).fluid_view() == old(self).fluid_view(),
    {
        set_clear(&mut self.queued_mesh_priorities);
        drain_queue(&mut self.pending_mesh_priorities)
    }


    /// Records the flow state of a liquid block in a loaded chunk. Returns
    /// false, recording nothing, outside loaded chunks and for non-liquid
    /// blocks, and false when the block already had that state; otherwise
    /// the chunk and the neighbours sharing the block's faces are marked dirty
    /// and queued for priority remeshing.
    pub fn set_fluid_state(&mut self, global: IVec3, state: FluidState) -> (r: bool)
        requires
            old(self).wf(),
            global_in_range(global),
        ensures
            final(self).wf(),
            ({
                let admitted = old(self).chunk_at(chunk_of(global)) is Some && old(self).block_at(
                    global,
                ).spec_is_liquid();
                &&& admitted ==> final(self).fluid_view() == old(self).fluid_view().insert(
                    pos_key(global),
                    state,
                )
                &&& !admitted ==> final(self).fluid_view() == old(self).fluid_view()
                &&& r == (admitted && !(old(self).fluid_view().contains_key(pos_key(global))
                    && old(self).fluid_view()[pos_key(global)] == state))
            }),
            forall|g: IVec3| #[trigger] final(self).block_at(g) == old(self).block_at(g),
            final(self).chunks_view().dom() == old(self).chunks_view().dom(),
            final(self).edits_view() == old(self).edits_view(),
    {
        if !self.contains_block(global) || !self.block(global).is_liquid() {
            return false;
        }
        let key = position_key(global);
        let replaced = map_insert(&mut self.fluid_states, key, state);
        proof {
            assert forall|k: u128| #[trigger] self.fluid_view().contains_key(k) implies is_pos_key(
                k,
            ) by {
                if k != key {
                    assert(old(self).fluid_view().contains_key(k));
                }
            }
            assert(self.edits_view() == old(self).edits_view());
            assert(self.chunks_view() == old(self).chunks_view());
        }
        let unchanged = match replaced {
            Some(previous) => previous == state,
            None => false,
        };
        if unchanged {
            return false;
        }
        let (chunk_position, local) = split_global(global);
        let ghost before = *self;
        self.mark_chunk_dirty(chunk_position);
        self.mark_border_neighbours_dirty(chunk_position, local);
        self.queue_mesh_priority(global);
        proof {
            assert forall|g: IVec3| #[trigger] self.block_at(g) == old(self).block_at(g) by {
                let k = pos_key(chunk_of(g));
                if before.chunks_view().contains_key(k) {
                    assert(self.chunks_view()[k].blocks_view() == before.chunks_view()[k].blocks_view());
                }
            }
        }
        true
    }

    /// Drops the flow state of a block; false when it had none. Otherwise its
    /// chunk and the neighbours sharing its faces are marked dirty and queued
    /// for priority remeshing.
    pub fn clear_fluid_state(&mut self, global: IVec3) -> (r: bool)
        requires
            old(self).wf(),
            global_in_range(global),
        ensures
            final(self).wf(),
            r == old(self).fluid_view().contains_key(pos_key(global)),
            final(self).fluid_view() == old(self).fluid_view().remove(pos_key(global)),
            forall|g: IVec3| #[trigger] final(self).block_at(g) == old(self).block_at(g),
            final(self).chunks_view().dom() == old(self).chunks_view().dom(),
            final(self).edits_view() == old(self).edits_view(),
    {
        let key = position_key(global);
        let removed = map_remove(&mut self.fluid_states, key);
        proof {
            assert forall|k: u128| #[trigger] self.fluid_view().contains_key(k) implies is_pos_key(
                k,
            ) by {
                assert(old(self).fluid_view().contains_key(k));
            }
            assert(self.edits_view() == old(self).edits_view());
            assert(self.chunks_view() == old(self).chunks_view());
        }
        if removed.is_none() {
            return false;
        }
        let (chunk_position, local) = split_global(global);
        let ghost before = *self;
        self.mark_chunk_dirty(chunk_position);
        self.mark_border_neighbours_dirty(chunk_position, local);
        self.queue_mesh_priority(global);
        proof {
            assert forall|g: IVec3| #[trigger] self.block_at(g) == old(self).block_at(g) by {
                let k = pos_key(chunk_of(g));
                if before.chunks_view().contains_key(k) {
                    assert(self.chunks_view()[k].blocks_view() == before.chunks_view()[k].blocks_view());
                }
            }
        }
        true
    }

    /// Changes a block the simulation moved, without recording it as an edit:
    /// fluid currents go this way, so that only their sources are saved.
    /// Returns the replaced block, or `None` when the chunk is not loaded.
    #[verifier::rlimit(40)]
    pub fn set_simulated_block(&mut self, global: IVec3, block: BlockId) -> (r: Option<BlockId>)
        requires
            old(self).wf(),
            global_in_range(global),
        ensures
            final(self).wf(),
            old(self).chunk_at(chunk_of(global)) is None ==> r.is_none() && *final(self) == *old(
                self,
            ),
            old(self).chunk_at(chunk_of(global)) is Some ==> {
                &&& r == Some(old(self).block_at(global))
                &&& forall|g: IVec3| #[trigger]
                    final(self).block_at(g) == if g == global {
                        block
                    } else {
                        old(self).block_at(g)
                    }
                &&& forall|g: IVec3| #[trigger]
                    final(self).skylight_at(g) == old(self).skylight_at(g)
                &&& final(self).chunks_view().dom() == old(self).chunks_view().dom()
                &&& final(self).edits_view() == old(self).edits_view()
                &&& !block.spec_is_liquid() ==> final(self).fluid_view() == old(
                    self,
                ).fluid_view().remove(pos_key(global))
                &&& block.spec_is_liquid() ==> final(self).fluid_view() == old(self).fluid_view()
                &&& old(self).block_at(global) != block ==> final(self).light_updates_view() == old(
                    self,
                ).light_updates_view().push(
                    BlockChange { position: global, previous: old(self).block_at(global), current: block },
                )
                &&& old(self).block_at(global) == block ==> final(self).light_updates_view() == old(
                    self,
                ).light_updates_view()
                &&& final(self).fluid_updates_view() == old(self).fluid_updates_view()
            },
    {
        let (chunk_position, _) = split_global(global);
        if !map_contains(&self.chunks, position_key(chunk_position)) {
            return None;
        }
        let (previous, chunk_position, local) = self.write_loaded_cell(global, block);
        let ghost after_write = *self;
        if previous == block {
            return Some(previous);
        }
        self.queue_dirty_chunk(chunk_position);
        self.pending_light_updates.push_back(
            BlockChange { position: global, previous, current: block },
        );
        self.queue_mesh_priority(global);
        let ghost mid = *self;
        self.mark_border_neighbours_dirty(chunk_position, local);
        proof {
            assert(mid.chunks_view() == after_write.chunks_view());
            lemma_same_cells_reads(mid, *self);
            assert forall|g: IVec3| #[trigger]
                self.block_at(g) == if g == global {
                    block
                } else {
                    old(self).block_at(g)
                } by {
                assert(self.block_at(g) == mid.block_at(g));
                assert(mid.block_at(g) == after_write.block_at(g));
            }
            assert forall|g: IVec3| #[trigger]
                self.skylight_at(g) == old(self).skylight_at(g) by {
                assert(self.skylight_at(g) == mid.skylight_at(g));
                assert(mid.skylight_at(g) == after_write.skylight_at(g));
            }
        }
        Some(previous)
    }

    /// Positions of the loaded chunks, each once, in the chunk table's order.
    pub fn chunk_positions(&self) -> (r: Vec<IVec3>)
        requires
            self.wf(),
        ensures
            forall|p: IVec3| self.chunk_at(p) is Some <==> #[trigger] r@.contains(p),
            r@.len() == self.chunks_view().dom().len(),
    {
        let keys = map_keys(&self.chunks);
        let mut r: Vec<IVec3> = Vec::new();
        let mut i: usize = 0;
        while i < keys.len()
            invariant
                self.wf(),
                i <= keys@.len(),
                keys@.no_duplicates(),
                forall|k: u128| self.chunks_view().contains_key(k) <==> #[trigger] keys@.contains(k),
                r@.len() == i,
                forall|t: int| 0 <= t < i ==> #[trigger] r@[t] == key_pos(keys@[t]),
            decreases keys@.len() - i,
        {
            let key = keys[i];
            assert(keys@.contains(key));
            r.push(key_position(key));
            i = i + 1;
        }
        proof {
            assert forall|p: IVec3| self.chunk_at(p) is Some <==> #[trigger] r@.contains(p) by {
                crate::geometry::lemma_pos_key(p);
                if self.chunk_at(p) is Some {
                    assert(keys@.contains(pos_key(p)));
                    let t = choose|t: int| 0 <= t < keys@.len() && keys@[t] == pos_key(p);
                    assert(r@[t] == p);
                }
                if r@.contains(p) {
                    let t = choose|t: int| 0 <= t < r@.len() && r@[t] == p;
                    assert(keys@.contains(keys@[t]));
                    assert(self.chunks_view().contains_key(keys@[t]));
                    crate::geometry::lemma_key_pos(keys@[t]);
                }
            }
            keys@.unique_seq_to_set();
            assert(keys@.to_set() =~= self.chunks_view().dom());
        }
        r
    }


    /// Every recorded edit as a block position and the block recorded there.
    pub fn recorded_edits(&self) -> (r: Vec<(IVec3, BlockId)>)
        requires
            self.wf(),
        ensures
            forall|t: int|
                0 <= t < r@.len() ==> self.edit_at(
                    chunk_of(#[trigger] r@[t].0),
                    local_index(local_of(r@[t].0)),
                ) == Some(r@[t].1),
            forall|k: u128, l: u128|
                #![trigger self.edits_view()[k][l]]
                self.edits_view().contains_key(k) && self.edits_view()[k].contains_key(l)
                    ==> r@.contains((global_of(key_pos(k), index_local(l as int)), self.edits_view()[k][l])),
    {
        let mut r: Vec<(IVec3, BlockId)> = Vec::new();
        let chunk_keys = map_keys(&self.edits);
        let mut i: usize = 0;
        while i < chunk_keys.len()
            invariant
                self.wf(),
                i <= chunk_keys@.len(),
                chunk_keys@.no_duplicates(),
                forall|k: u128| self.edits_view().contains_key(k) <==> #[trigger] chunk_keys@.contains(k),
                forall|t: int|
                    0 <= t < r@.len() ==> self.edit_at(
                        chunk_of(#[trigger] r@[t].0),
                        local_index(local_of(r@[t].0)),
                    ) == Some(r@[t].1),
                forall|k: u128, l: u128|
                    #![trigger self.edits_view()[k][l]]
                    self.edits_view().contains_key(k) && self.edits_view()[k].contains_key(l)
                        && chunk_keys@.take(i as int).contains(k)
                        ==> r@.contains((global_of(key_pos(k), index_local(l as int)), self.edits_view()[k][l])),
            decreases chunk_keys@.len() - i,
        {
            let chunk_key = chunk_keys[i];
            assert(chunk_keys@.contains(chunk_key));
            assert(self.edits_view().contains_key(chunk_key));
            let chunk_position = key_position(chunk_key);
            let chunk_edits = match map_get(&self.edits, chunk_key) {
                Some(e) => e,
                None => {
                    return r;
                },
            };
            assert(chunk_edits@ == self.edits_view()[chunk_key]);
            let locals = map_keys(chunk_edits);
            let ghost r_before = r@;
            let mut j: usize = 0;
            while j < locals.len()
                invariant
                    self.wf(),
                    self.edits_view().contains_key(chunk_key),
                    chunk_edits@ == self.edits_view()[chunk_key],
                    chunk_position == key_pos(chunk_key),
                    pos_key(chunk_position) == chunk_key,
                    block_chunk(chunk_position),
                    j <= locals@.len(),
                    forall|l: u128| chunk_edits@.contains_key(l) <==> #[trigger] locals@.contains(l),
                    r_before.len() <= r@.len(),
                    forall|t: int| 0 <= t < r_before.len() ==> r@[t] == #[trigger] r_before[t],
                    forall|t: int|
                        0 <= t < r@.len() ==> self.edit_at(
                            chunk_of(#[trigger] r@[t].0),
                            local_index(local_of(r@[t].0)),
                        ) == Some(r@[t].1),
                    forall|l: u128|
                        #![trigger chunk_edits@[l]]
                        chunk_edits@.contains_key(l) && locals@.take(j as int).contains(l)
                            ==> r@.contains((global_of(chunk_position, index_local(l as int)), chunk_edits@[l])),
                decreases locals@.len() - j,
            {
                let l = locals[j];
                assert(locals@.contains(l));
                assert(chunk_edits@.contains_key(l));
                assert(l < 4096);
                let block = match map_get(chunk_edits, l) {
                    Some(b) => *b,
                    None => BlockId::AIR,
                };
                let local = decode_local(l as u16);
                proof {
                    crate::chunk::lemma_index_local_roundtrip(l as int);
                    crate::coordinates::law_split_join_roundtrip(
                        IVec3 { x: 0, y: 0, z: 0 },
                        chunk_position,
                        local,
                    );
                }
                let global = global_from_local(chunk_position, local);
                let ghost r_mid = r@;
                r.push((global, block));
                proof {
                    assert(r@[r@.len() - 1] == (global, block));
                    assert forall|m: u128|
                        #![trigger chunk_edits@[m]]
                        chunk_edits@.contains_key(m) && locals@.take(j as int + 1).contains(m)
                            implies r@.contains((global_of(chunk_position, index_local(m as int)), chunk_edits@[m])) by {
                        assert(locals@.take(j as int + 1) =~= locals@.take(j as int).push(l));
                        vstd::seq_lib::lemma_seq_contains_after_push(locals@.take(j as int), l, m);
                        if m == l {
                            assert(r@[r@.len() - 1] == (global_of(chunk_position, index_local(m as int)), chunk_edits@[m]));
                        } else {
                            assert(r_mid.contains((global_of(chunk_position, index_local(m as int)), chunk_edits@[m])));
                            let t = choose|t: int| 0 <= t < r_mid.len() && r_mid[t] == (global_of(chunk_position, index_local(m as int)), chunk_edits@[m]);
                            assert(r@[t] == r_mid[t]);
                        }
                    }
                }
                j = j + 1;
            }
            proof {
                assert(locals@.take(locals@.len() as int) =~= locals@);
                assert(chunk_keys@.take(i as int + 1) =~= chunk_keys@.take(i as int).push(chunk_key));
                assert forall|k: u128, l: u128|
                    #![trigger self.edits_view()[k][l]]
                    self.edits_view().contains_key(k) && self.edits_view()[k].contains_key(l)
                        && chunk_keys@.take(i as int + 1).contains(k)
                        implies r@.contains((global_of(key_pos(k), index_local(l as int)), self.edits_view()[k][l])) by {
                    vstd::seq_lib::lemma_seq_contains_after_push(chunk_keys@.take(i as int), chunk_key, k);
                    if k == chunk_key {
                        assert(locals@.contains(l));
                        assert(chunk_edits@[l] == self.edits_view()[k][l]);
                    } else {
                        assert(r_before.contains((global_of(key_pos(k), index_local(l as int)), self.edits_view()[k][l])));
                        let t = choose|t: int| 0 <= t < r_before.len() && r_before[t] == (global_of(key_pos(k), index_local(l as int)), self.edits_view()[k][l]);
                        assert(r@[t] == r_before[t]);
                    }
                }
            }
            i = i + 1;
        }
        proof {
            assert(chunk_keys@.take(chunk_keys@.len() as int) =~= chunk_keys@);
        }
        r
    }

}

} // verus!
