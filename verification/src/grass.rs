use vstd::prelude::*;

use rustc_hash::FxHashSet;

use crate::blocks::BlockId;
use crate::chunk::{decode_local, index_local, lemma_index_local_roundtrip, local_index, Chunk};
use crate::collections::{
    map_contains, map_get, map_insert, map_keys, map_new, map_remove, set_insert, set_is_empty, set_keys,
    set_new, set_remove, KeyMap,
};
use crate::coordinates::{
    chunk_of, global_from_local, global_of, law_split_join_roundtrip, local_of, split_global,
};
use crate::geometry::{
    is_pos_key, key_pos, key_position, lemma_key_pos, lemma_pos_key, pos_key, position_key, IVec3,
    UVec3,
};
use crate::world::{chunk_pos_in_range, global_in_range, World};

verus! {

broadcast use crate::geometry::lemma_pos_key_injective;

/// Delay before eligible grass spreads, in nanoseconds: 55 seconds.
pub const RANDOM_TICK_INTERVAL_NANOS: u128 = 55_000_000_000;

/// Shortest decay delay of covered or unlit grass, in seconds.
pub const MIN_DECAY_SECONDS: u64 = 8;

/// Longest decay delay of covered or unlit grass, in seconds.
pub const MAX_DECAY_SECONDS: u64 = 16;

/// Most grass ticks handled in one update.
pub const RANDOM_TICK_BUDGET_PER_FRAME: usize = 128;

/// Nanoseconds in a second.
pub const NANOS_PER_SECOND: u128 = 1_000_000_000;

/// Latest elapsed time the system accepts, leaving room for every delay.
pub const ELAPSED_LIMIT: u128 = 0xFFFF_FFFF_FFFF_FFFF_0000_0000_0000_0000;

/// The `index`-th of the 24 directions grass spreads in: every neighbour of
/// the 3x3x3 cube except the block itself and the blocks straight above and
/// below, layer by layer from below, then by x, then by z.
pub open spec fn spread_direction_spec(index: int) -> IVec3 {
    let layer = index / 8;
    let j = index % 8;
    let m = if j < 4 {
        j
    } else {
        j + 1
    };
    IVec3 { x: (m / 3 - 1) as i32, y: (layer - 1) as i32, z: (m % 3 - 1) as i32 }
}

/// One of the directions grass spreads in.
pub fn spread_direction(index: usize) -> (r: IVec3)
    requires
        index < 24,
    ensures
        r == spread_direction_spec(index as int),
{
    let layer = index / 8;
    let j = index % 8;
    let m = if j < 4 {
        j
    } else {
        j + 1
    };
    IVec3 { x: (m / 3) as i32 - 1, y: layer as i32 - 1, z: (m % 3) as i32 - 1 }
}

/// The 24 directions grass spreads in, in order.
pub fn spread_directions() -> (r: Vec<IVec3>)
    ensures
        r@.len() == 24,
        forall|i: int| 0 <= i < 24 ==> #[trigger] r@[i] == spread_direction_spec(i),
{
    let mut directions: Vec<IVec3> = Vec::new();
    let mut i: usize = 0;
    while i < 24
        invariant
            i <= 24,
            directions@.len() == i,
            forall|k: int| 0 <= k < i ==> #[trigger] directions@[k] == spread_direction_spec(k),
        decreases 24 - i,
    {
        directions.push(spread_direction(i));
        i = i + 1;
    }
    directions
}

/// Grass spreads to each of its 24 neighbours except those straight above and
/// below: each direction is a unit step on every axis, none is zero or
/// vertical, and no two are equal.
pub proof fn law_spread_directions()
    ensures
        forall|i: int|
            0 <= i < 24 ==> {
                let d = #[trigger] spread_direction_spec(i);
                &&& -1 <= d.x <= 1
                &&& -1 <= d.y <= 1
                &&& -1 <= d.z <= 1
                &&& !(d.x == 0 && d.z == 0)
            },
        forall|i: int, j: int|
            0 <= i < j < 24 ==> spread_direction_spec(i) != spread_direction_spec(j),
{
    assert forall|i: int| 0 <= i < 24 implies {
        let d = #[trigger] spread_direction_spec(i);
        &&& -1 <= d.x <= 1
        &&& -1 <= d.y <= 1
        &&& -1 <= d.z <= 1
        &&& !(d.x == 0 && d.z == 0)
    } by {
        let j = i % 8;
        let m = if j < 4 {
            j
        } else {
            j + 1
        };
        assert(0 <= m < 9 && m != 4);
        assert(0 <= m / 3 < 3 && 0 <= m % 3 < 3 && !(m / 3 == 1 && m % 3 == 1)) by (nonlinear_arith)
            requires
                0 <= m < 9,
                m != 4,
        ;
        assert(0 <= i / 8 < 3) by (nonlinear_arith)
            requires
                0 <= i < 24,
        ;
    }
    assert forall|i: int, j: int| 0 <= i < j < 24 implies spread_direction_spec(i)
        != spread_direction_spec(j) by {
        let a = spread_direction_spec(i);
        let b = spread_direction_spec(j);
        let mi = if i % 8 < 4 {
            i % 8
        } else {
            i % 8 + 1
        };
        let mj = if j % 8 < 4 {
            j % 8
        } else {
            j % 8 + 1
        };
        assert(i == (i / 8) * 8 + i % 8 && j == (j / 8) * 8 + j % 8) by (nonlinear_arith)
            requires
                0 <= i,
                0 <= j,
        ;
        assert(mi == (mi / 3) * 3 + mi % 3 && mj == (mj / 3) * 3 + mj % 3) by (nonlinear_arith)
            requires
                0 <= mi,
                0 <= mj,
        ;
        if a == b {
            assert(i / 8 == j / 8);
            assert(mi / 3 == mj / 3 && mi % 3 == mj % 3);
            assert(mi == mj);
            assert(i % 8 == j % 8);
        }
    }
}

/// The timer kinds of a grass block.
#[derive(Clone, Copy, Debug, PartialEq, Eq, Structural)]
pub enum TimerKind {
    Spread,
    Decay,
}

/// The timer of a watched grass block: its deadline and kind while it runs,
/// and the token that tells a current schedule entry from a stale one.
#[derive(Clone, Copy, Debug, PartialEq, Eq, Structural)]
pub struct GrassTimer {
    pub deadline: Option<u128>,
    pub kind: Option<TimerKind>,
    pub token: u64,
}

/// A scheduled grass tick.
#[derive(Clone, Copy, Debug, PartialEq, Eq, Structural)]
pub struct ScheduledTick {
    pub deadline: u128,
    pub token: u64,
    pub position: IVec3,
}

/// Position `a` comes strictly before `b` by x, then y, then z.
pub open spec fn position_before(a: IVec3, b: IVec3) -> bool {
    a.x < b.x || (a.x == b.x && (a.y < b.y || (a.y == b.y && a.z < b.z)))
}

/// Tick `a` comes strictly before tick `b`: earlier deadline, then lower
/// token, then lower position.
pub open spec fn tick_before(a: ScheduledTick, b: ScheduledTick) -> bool {
    a.deadline < b.deadline || (a.deadline == b.deadline && (a.token < b.token || (a.token
        == b.token && position_before(a.position, b.position))))
}

/// Ticks are ordered strictly and totally.
proof fn lemma_tick_order(a: ScheduledTick, b: ScheduledTick, c: ScheduledTick)
    ensures
        !(tick_before(a, b) && tick_before(b, a)),
        tick_before(a, b) || tick_before(b, a) || a == b,
        tick_before(a, b) && tick_before(b, c) ==> tick_before(a, c),
{
}

/// Whether tick `a` comes strictly before tick `b`.
fn tick_precedes(a: &ScheduledTick, b: &ScheduledTick) -> (r: bool)
    ensures
        r == tick_before(*a, *b),
{
    a.deadline < b.deadline || (a.deadline == b.deadline && (a.token < b.token || (a.token
        == b.token && (a.position.x < b.position.x || (a.position.x == b.position.x && (
    a.position.y < b.position.y || (a.position.y == b.position.y && a.position.z
        < b.position.z)))))))
}

/// Adds a tick to a schedule kept latest first, after every tick that does
/// not come before it; returns where it went.
fn insert_tick(scheduled: &mut Vec<ScheduledTick>, tick: ScheduledTick) -> (at: usize)
    requires
        latest_first(old(scheduled)@),
    ensures
        latest_first(final(scheduled)@),
        at <= old(scheduled)@.len(),
        final(scheduled)@ == old(scheduled)@.insert(at as int, tick),
{
    let mut i: usize = 0;
    while i < scheduled.len() && !tick_precedes(&scheduled[i], &tick)
        invariant
            i <= scheduled@.len(),
            scheduled@ == old(scheduled)@,
            forall|j: int| 0 <= j < i ==> !#[trigger] tick_before(scheduled@[j], tick),
        decreases scheduled@.len() - i,
    {
        i = i + 1;
    }
    let ghost before = scheduled@;
    scheduled.insert(i, tick);
    proof {
        let n = scheduled@;
        assert forall|a: int, b: int| 0 <= a < b < n.len() implies !#[trigger] tick_before(
            n[a],
            n[b],
        ) by {
            if b < i {
                assert(n[a] == before[a] && n[b] == before[b]);
            } else if b == i {
                assert(n[a] == before[a]);
            } else if a < i {
                assert(n[a] == before[a] && n[b] == before[b - 1]);
                assert(!tick_before(before[a], before[b - 1]));
            } else if a == i {
                assert(n[b] == before[b - 1]);
                assert(tick_before(before[i as int], tick));
                lemma_tick_order(before[b - 1], before[i as int], tick);
                lemma_tick_order(tick, before[b - 1], tick);
                if b - 1 > i {
                    assert(!tick_before(before[i as int], before[b - 1]));
                }
            } else {
                assert(n[a] == before[a - 1] && n[b] == before[b - 1]);
                assert(!tick_before(before[a - 1], before[b - 1]));
            }
        }
    }
    i
}

/// Ticks stored latest first, so that the next tick is the last one.
pub open spec fn latest_first(ticks: Seq<ScheduledTick>) -> bool {
    forall|i: int, j: int| 0 <= i < j < ticks.len() ==> !#[trigger] tick_before(ticks[i], ticks[j])
}

/// No tick of a schedule is due at `time`.
pub open spec fn none_due(ticks: Seq<ScheduledTick>, time: u128) -> bool {
    forall|i: int| 0 <= i < ticks.len() ==> #[trigger] ticks[i].deadline > time
}

/// The ticks of a schedule that are due at `time`, in schedule order.
pub open spec fn due_ticks(ticks: Seq<ScheduledTick>, time: u128) -> Seq<ScheduledTick>
    decreases ticks.len(),
{
    if ticks.len() == 0 {
        Seq::empty()
    } else {
        let rest = due_ticks(ticks.drop_last(), time);
        if ticks.last().deadline <= time {
            rest.push(ticks.last())
        } else {
            rest
        }
    }
}

/// Adding a tick that is not due leaves the due ticks as they are.
proof fn lemma_due_ticks_insert(ticks: Seq<ScheduledTick>, at: int, tick: ScheduledTick, time: u128)
    requires
        0 <= at <= ticks.len(),
        tick.deadline > time,
    ensures
        due_ticks(ticks.insert(at, tick), time) == due_ticks(ticks, time),
    decreases ticks.len(),
{
    let inserted = ticks.insert(at, tick);
    if at == ticks.len() {
        assert(inserted.drop_last() =~= ticks);
    } else {
        assert(inserted.drop_last() =~= ticks.drop_last().insert(at, tick));
        assert(inserted.last() == ticks.last());
        lemma_due_ticks_insert(ticks.drop_last(), at, tick, time);
    }
}

/// Two grass systems agree on the clock and on which scheduled ticks are due.
pub open spec fn same_due(a: GrassSystem, b: GrassSystem) -> bool {
    &&& b.elapsed_view() == a.elapsed_view()
    &&& due_ticks(b.scheduled_view(), b.elapsed_view()) == due_ticks(
        a.scheduled_view(),
        a.elapsed_view(),
    )
}

/// What the tick of the block at `p` does to the world, with timer kind
/// `kind` and generator state `random`, changing `changed` blocks. A block
/// that is not grass, grass whose need to decay does not match the tick, and
/// grass without a spread target change nothing. Grass that must decay, on a
/// decay tick, turns to dirt. Otherwise one spread direction is drawn, and the
/// block it leads to turns from dirt to grass if it can receive grass.
pub open spec fn tick_action(
    before: World,
    after: World,
    p: IVec3,
    kind: Option<TimerKind>,
    random: u64,
    changed: int,
) -> bool {
    let grass = before.block_at(p) == BlockId::GRASS;
    let decay_tick = kind == Some(TimerKind::Decay);
    let must = must_decay_spec(before, p);
    let target = step(p, ((xorshift(random) as usize) % 24) as int);
    let spreads = grass && !decay_tick && !must && has_spread_target_spec(before, p);
    &&& grass_only_turns(before, after)
    &&& !grass ==> changed == 0 && after == before
    &&& grass && decay_tick && must ==> changed == 1 && forall|g: IVec3| #[trigger]
        after.block_at(g) == if g == p {
            BlockId::DIRT
        } else {
            before.block_at(g)
        }
    &&& grass && (decay_tick != must || (!decay_tick && !has_spread_target_spec(before, p)))
        ==> changed == 0 && after == before
    &&& spreads && !can_receive_spec(before, target) ==> changed == 0 && after == before
    &&& spreads && can_receive_spec(before, target) ==> changed == 1 && forall|g: IVec3|
        #[trigger]
        after.block_at(g) == if g == target {
            BlockId::GRASS
        } else {
            before.block_at(g)
        }
}

/// The timer at a tick's position still runs for that tick.
pub open spec fn tick_valid(s: GrassSystem, t: ScheduledTick) -> bool {
    &&& s.watches(t.position)
    &&& s.timers_view()[pos_key(t.position)].token == t.token
    &&& s.timers_view()[pos_key(t.position)].deadline == Some(t.deadline)
}

/// One pass of an update: the next tick `t` of `s` is due and leaves the
/// schedule. When its timer still runs for it, its action turns `w` into
/// `w2`, changing `changed` blocks, and `s2` keeps the clock and the due ticks
/// that remain; a stale tick changes nothing else.
pub open spec fn tick_step(
    s: GrassSystem,
    w: World,
    s2: GrassSystem,
    w2: World,
    t: ScheduledTick,
    changed: int,
) -> bool {
    &&& s.scheduled_view().len() > 0
    &&& t == s.scheduled_view().last()
    &&& t.deadline <= s.elapsed_view()
    &&& s2.wf()
    &&& s2.elapsed_view() == s.elapsed_view()
    &&& due_ticks(s2.scheduled_view(), s2.elapsed_view()) == due_ticks(
        s.scheduled_view(),
        s.elapsed_view(),
    ).drop_last()
    &&& if tick_valid(s, t) {
        tick_action(w, w2, t.position, s.timers_view()[pos_key(t.position)].kind, s.random_view(), changed)
    } else {
        &&& changed == 0
        &&& w2 == w
        &&& s2.scheduled_view() == s.scheduled_view().drop_last()
        &&& s2.timers_view() == s.timers_view()
        &&& s2.index_view() == s.index_view()
        &&& s2.token_view() == s.token_view()
        &&& s2.random_view() == s.random_view()
    }
}

/// How many of the first `n` passes ran a tick whose timer still ran for it.
pub open spec fn valid_passes(systems: Seq<GrassSystem>, ticks: Seq<ScheduledTick>, n: int) -> int
    decreases n,
{
    if n <= 0 {
        0
    } else {
        valid_passes(systems, ticks, n - 1) + if tick_valid(systems[n - 1], ticks[n - 1]) {
            1int
        } else {
            0int
        }
    }
}

/// The blocks changed in the first `n` passes.
pub open spec fn changed_total(counts: Seq<int>, n: int) -> int
    decreases n,
{
    if n <= 0 {
        0
    } else {
        changed_total(counts, n - 1) + counts[n - 1]
    }
}

/// The passes of an update so far: `systems[0]` is the system with its clock
/// advanced, each pass takes the next due tick as `tick_step` says, and every
/// pass began with fewer valid ticks run than the budget allows.
pub open spec fn update_passes(
    systems: Seq<GrassSystem>,
    worlds: Seq<World>,
    ticks: Seq<ScheduledTick>,
    counts: Seq<int>,
) -> bool {
    &&& systems.len() == ticks.len() + 1
    &&& worlds.len() == ticks.len() + 1
    &&& counts.len() == ticks.len()
    &&& forall|i: int|
        0 <= i < ticks.len() ==> #[trigger] tick_step(
            systems[i],
            worlds[i],
            systems[i + 1],
            worlds[i + 1],
            ticks[i],
            counts[i],
        )
    &&& forall|i: int|
        0 <= i < ticks.len() ==> #[trigger] valid_passes(systems, ticks, i)
            < RANDOM_TICK_BUDGET_PER_FRAME
}

/// An update ends when the budget of valid ticks is spent or no tick is due.
pub open spec fn update_done(
    systems: Seq<GrassSystem>,
    ticks: Seq<ScheduledTick>,
) -> bool {
    let last = systems.last();
    ||| valid_passes(systems, ticks, ticks.len() as int) == RANDOM_TICK_BUDGET_PER_FRAME
    ||| none_due(last.scheduled_view(), last.elapsed_view())
}

/// The counts of the passes of an update depend only on the passes so far.
proof fn lemma_passes_prefix(
    systems: Seq<GrassSystem>,
    ticks: Seq<ScheduledTick>,
    counts: Seq<int>,
    systems2: Seq<GrassSystem>,
    ticks2: Seq<ScheduledTick>,
    counts2: Seq<int>,
    n: int,
)
    requires
        0 <= n <= ticks.len(),
        systems.len() == ticks.len() + 1,
        counts.len() == ticks.len(),
        systems2 == systems.push(systems2.last()),
        ticks2 == ticks.push(ticks2.last()),
        counts2 == counts.push(counts2.last()),
    ensures
        valid_passes(systems2, ticks2, n) == valid_passes(systems, ticks, n),
        changed_total(counts2, n) == changed_total(counts, n),
    decreases n,
{
    if n > 0 {
        lemma_passes_prefix(systems, ticks, counts, systems2, ticks2, counts2, n - 1);
        assert(systems2[n - 1] == systems[n - 1]);
        assert(ticks2[n - 1] == ticks[n - 1]);
        assert(counts2[n - 1] == counts[n - 1]);
    }
}

/// A tick in a schedule stays in it when another is inserted.
proof fn lemma_contains_after_insert(
    ticks: Seq<ScheduledTick>,
    at: int,
    inserted: ScheduledTick,
    t: ScheduledTick,
)
    requires
        0 <= at <= ticks.len(),
        ticks.contains(t),
    ensures
        ticks.insert(at, inserted).contains(t),
{
    let j = choose|j: int| 0 <= j < ticks.len() && ticks[j] == t;
    let n = ticks.insert(at, inserted);
    if j < at {
        assert(n[j] == t);
    } else {
        assert(n[j + 1] == t);
    }
}

/// A tick in a schedule other than its last stays in it when the last is popped.
proof fn lemma_contains_after_pop(ticks: Seq<ScheduledTick>, t: ScheduledTick)
    requires
        ticks.len() > 0,
        ticks.contains(t),
        t != ticks.last(),
    ensures
        ticks.drop_last().contains(t),
{
    let j = choose|j: int| 0 <= j < ticks.len() && ticks[j] == t;
    assert(j != ticks.len() - 1);
    assert(ticks.drop_last()[j] == t);
}

/// The block above `p`.
pub open spec fn above(p: IVec3) -> IVec3 {
    IVec3 { y: (p.y + 1) as i32, ..p }
}

/// Grass spreads only to lit dirt with air above: whenever the tick of a
/// grass block turns a block from dirt into grass, that block had skylight
/// and air above it; and a tick turns at most one block.
pub proof fn law_grass_spreads_only_to_lit_dirt(
    before: World,
    after: World,
    p: IVec3,
    kind: Option<TimerKind>,
    random: u64,
    changed: int,
)
    requires
        tick_action(before, after, p, kind, random, changed),
    ensures
        forall|g: IVec3|
            before.block_at(g) == BlockId::DIRT && #[trigger] after.block_at(g) == BlockId::GRASS
                ==> before.skylight_at(g) > 0 && before.block_at(above(g)) == BlockId::AIR,
        0 <= changed <= 1,
        changed == 0 ==> after == before,
{
    reveal(can_receive_spec);
}

/// Over the passes of an update, grass only ever spreads to lit dirt with air
/// above: a block that one pass turns from dirt into grass had skylight and
/// air above it before that pass.
pub proof fn law_updates_spread_only_to_lit_dirt(
    systems: Seq<GrassSystem>,
    worlds: Seq<World>,
    ticks: Seq<ScheduledTick>,
    counts: Seq<int>,
)
    requires
        update_passes(systems, worlds, ticks, counts),
    ensures
        forall|i: int, g: IVec3|
            0 <= i < ticks.len() && worlds[i].block_at(g) == BlockId::DIRT
                && #[trigger] worlds[i + 1].block_at(g) == BlockId::GRASS ==> worlds[i].skylight_at(g)
                > 0 && worlds[i].block_at(above(g)) == BlockId::AIR,
{
    assert forall|i: int, g: IVec3|
        0 <= i < ticks.len() && worlds[i].block_at(g) == BlockId::DIRT
            && #[trigger] worlds[i + 1].block_at(g) == BlockId::GRASS implies worlds[i].skylight_at(g)
            > 0 && worlds[i].block_at(above(g)) == BlockId::AIR by {
        assert(tick_step(systems[i], worlds[i], systems[i + 1], worlds[i + 1], ticks[i], counts[i]));
        if tick_valid(systems[i], ticks[i]) {
            law_grass_spreads_only_to_lit_dirt(
                worlds[i],
                worlds[i + 1],
                ticks[i].position,
                systems[i].timers_view()[pos_key(ticks[i].position)].kind,
                systems[i].random_view(),
                counts[i],
            );
        }
    }
}

/// Positions the grass system handles: far enough from the coordinate limits
/// that every neighbour has 32-bit coordinates.
pub open spec fn grass_in_range(p: IVec3) -> bool {
    &&& -0x7FFF_0000 <= p.x <= 0x7FFF_0000
    &&& -0x7FFF_0000 <= p.y <= 0x7FFF_0000
    &&& -0x7FFF_0000 <= p.z <= 0x7FFF_0000
}

fn in_grass_range(p: IVec3) -> (r: bool)
    ensures
        r == grass_in_range(p),
{
    -0x7FFF_0000 <= p.x && p.x <= 0x7FFF_0000 && -0x7FFF_0000 <= p.y && p.y <= 0x7FFF_0000
        && -0x7FFF_0000 <= p.z && p.z <= 0x7FFF_0000
}

/// The next value of the xorshift generator.
pub open spec fn xorshift(value: u64) -> u64 {
    let a = value ^ (value << 13u64);
    let b = a ^ (a >> 7u64);
    b ^ (b << 17u64)
}

/// The decay delay, in seconds, that a generator state gives: the shortest
/// delay plus the next draw modulo the number of possible delays.
pub open spec fn decay_seconds(random: u64) -> int {
    MIN_DECAY_SECONDS + (xorshift(random) as usize) % ((MAX_DECAY_SECONDS - MIN_DECAY_SECONDS
        + 1) as usize)
}

/// The deadline of a decay `seconds` after `elapsed`.
pub open spec fn decay_deadline(elapsed: u128, seconds: int) -> u128 {
    (elapsed + seconds * NANOS_PER_SECOND) as u128
}

/// The grass block at `p` must decay: it gets no skylight, or a block that is
/// neither air nor liquid covers it.
#[verifier::opaque]
pub open spec fn must_decay_spec(world: World, p: IVec3) -> bool {
    let above = world.block_at(IVec3 { y: (p.y + 1) as i32, ..p });
    world.skylight_at(p) == 0 || (above != BlockId::AIR && !above.spec_is_liquid())
}

/// Grass can spread to `p`: lit dirt with air above.
#[verifier::opaque]
pub open spec fn can_receive_spec(world: World, p: IVec3) -> bool {
    &&& world.block_at(p) == BlockId::DIRT
    &&& world.skylight_at(p) > 0
    &&& world.block_at(IVec3 { y: (p.y + 1) as i32, ..p }) == BlockId::AIR
}

/// The position one spread direction away.
pub open spec fn step(p: IVec3, index: int) -> IVec3 {
    let d = spread_direction_spec(index);
    IVec3 { x: (p.x + d.x) as i32, y: (p.y + d.y) as i32, z: (p.z + d.z) as i32 }
}

/// Some spread direction leads to dirt that can turn to grass.
pub open spec fn has_spread_target_spec(world: World, p: IVec3) -> bool {
    exists|i: int| 0 <= i < 24 && #[trigger] can_receive_spec(world, step(p, i))
}

/// What a timer should be for the block at `p`: grass in range is watched,
/// running a decay timer when it must decay, else a spread timer while it
/// has a target, else no deadline; any other block is not watched.
#[verifier::opaque]
pub open spec fn settled_timer(timer: Option<GrassTimer>, world: World, p: IVec3) -> bool {
    if grass_in_range(p) && world.block_at(p) == BlockId::GRASS {
        match timer {
            None => false,
            Some(t) => if must_decay_spec(world, p) {
                t.deadline is Some && t.kind == Some(TimerKind::Decay)
            } else if has_spread_target_spec(world, p) {
                t.deadline is Some && t.kind == Some(TimerKind::Spread)
            } else {
                t.deadline is None
            },
        }
    } else {
        timer is None
    }
}

/// The position one spread direction back.
pub open spec fn back_step(p: IVec3, index: int) -> IVec3 {
    let d = spread_direction_spec(index);
    IVec3 { x: (p.x - d.x) as i32, y: (p.y - d.y) as i32, z: (p.z - d.z) as i32 }
}

/// The block below `p`.
pub open spec fn below(p: IVec3) -> IVec3 {
    IVec3 { y: (p.y - 1) as i32, ..p }
}

/// A changed block whose neighbourhood has 32-bit coordinates: itself, the
/// block below, and every block one spread direction back from either.
pub open spec fn neighbourhood_fits(p: IVec3) -> bool {
    &&& -0x7FFF_FFFF <= p.x <= 0x7FFF_FFFE
    &&& -0x7FFF_FFFE <= p.y <= 0x7FFF_FFFE
    &&& -0x7FFF_FFFF <= p.z <= 0x7FFF_FFFE
}

/// The blocks whose grass timers a change at `changed` can affect: the block
/// itself, the block below, and every block one spread direction back from either.
pub open spec fn affected_by(changed: IVec3) -> Set<IVec3> {
    Set::new(|q: IVec3| is_affected(changed, q))
}

/// A change at `changed` can affect the block at `q`.
pub open spec fn is_affected(changed: IVec3, q: IVec3) -> bool {
    ||| q == changed
    ||| q == below(changed)
    ||| exists|i: int| 0 <= i < 24 && q == #[trigger] back_step(changed, i)
    ||| exists|i: int| 0 <= i < 24 && q == #[trigger] back_step(below(changed), i)
}

/// Between two world states only grass turned to dirt and dirt to grass, the
/// loaded chunks are the same, and every chunk keeps its skylight.
pub open spec fn grass_only_turns(before: World, after: World) -> bool {
    &&& after.wf()
    &&& after.chunks_view().dom() == before.chunks_view().dom()
    &&& forall|g: IVec3| #[trigger]
        after.block_at(g) == before.block_at(g) || (before.block_at(g) == BlockId::GRASS
            && after.block_at(g) == BlockId::DIRT) || (before.block_at(g) == BlockId::DIRT
            && after.block_at(g) == BlockId::GRASS)
    &&& forall|g: IVec3| #[trigger] after.skylight_at(g) == before.skylight_at(g)
}

/// Grass spreading and decaying: every watched grass block runs at most one
/// timer, to spread to lit dirt nearby or to decay when covered or unlit.
pub struct GrassSystem {
    elapsed: u128,
    timers: KeyMap<GrassTimer>,
    positions_by_chunk: KeyMap<FxHashSet<u128>>,
    scheduled: Vec<ScheduledTick>,
    next_token: u64,
    random_state: u64,
}

impl GrassSystem {
    pub closed spec fn elapsed_view(self) -> u128 {
        self.elapsed
    }

    /// The timers of the watched grass blocks, by position key.
    pub closed spec fn timers_view(self) -> Map<u128, GrassTimer> {
        self.timers@
    }

    /// The watched positions of each chunk, by chunk key.
    pub closed spec fn index_view(self) -> Map<u128, Set<u128>> {
        self.positions_by_chunk@.map_values(|s: FxHashSet<u128>| s@)
    }

    /// The scheduled ticks, latest first.
    pub closed spec fn scheduled_view(self) -> Seq<ScheduledTick> {
        self.scheduled@
    }

    pub closed spec fn token_view(self) -> u64 {
        self.next_token
    }

    pub closed spec fn random_view(self) -> u64 {
        self.random_state
    }

    /// Every watched position is in range and listed under its chunk, every
    /// listed position is watched, the schedule is ordered latest first, the
    /// elapsed time leaves room for every delay, and every running timer has
    /// its tick in the schedule.
    pub open spec fn wf(self) -> bool {
        self.wf_except(None)
    }

    /// Every running timer, but the one under the key `skip`, has its tick in
    /// the schedule.
    pub open spec fn ticks_scheduled_except(self, skip: Option<u128>) -> bool {
        forall|k: u128| #[trigger]
            self.timers_view().contains_key(k) && skip != Some(k)
                && self.timers_view()[k].deadline is Some ==> self.scheduled_view().contains(
                ScheduledTick {
                    deadline: self.timers_view()[k].deadline->0,
                    token: self.timers_view()[k].token,
                    position: key_pos(k),
                },
            )
    }

    /// Well formed, except that the running timer under the key `skip` may
    /// lack its tick in the schedule.
    pub open spec fn wf_except(self, skip: Option<u128>) -> bool {
        &&& self.ticks_scheduled_except(skip)
        &&& forall|k: u128| #[trigger]
            self.timers_view().contains_key(k) ==> is_pos_key(k) && grass_in_range(key_pos(k))
                && self.index_view().contains_key(pos_key(chunk_of(key_pos(k))))
                && self.index_view()[pos_key(chunk_of(key_pos(k)))].contains(k)
        &&& forall|c: u128, k: u128|
            #![trigger self.index_view()[c].contains(k)]
            self.index_view().contains_key(c) && self.index_view()[c].contains(k)
                ==> self.timers_view().contains_key(k) && pos_key(chunk_of(key_pos(k))) == c
        &&& latest_first(self.scheduled_view())
        &&& self.elapsed_view() <= ELAPSED_LIMIT
    }

    /// The grass block at `p` is watched.
    pub open spec fn watches(self, p: IVec3) -> bool {
        self.timers_view().contains_key(pos_key(p))
    }

    /// The timer of the block at `p`, if it is watched.
    pub open spec fn timer_of(self, p: IVec3) -> Option<GrassTimer> {
        if self.timers_view().contains_key(pos_key(p)) {
            Some(self.timers_view()[pos_key(p)])
        } else {
            None
        }
    }

    /// The timer of the block at `p` agrees with the world.
    pub open spec fn settled(self, world: World, p: IVec3) -> bool {
        settled_timer(self.timer_of(p), world, p)
    }

    /// The timer of a watched grass block runs with the given kind.
    pub open spec fn runs(self, p: IVec3, kind: TimerKind) -> bool {
        &&& self.watches(p)
        &&& self.timers_view()[pos_key(p)].deadline is Some
        &&& self.timers_view()[pos_key(p)].kind == Some(kind)
    }

    /// A system that watches nothing, with the given generator state.
    fn seeded(random_state: u64) -> (r: GrassSystem)
        ensures
            r.wf(),
            r.timers_view().is_empty(),
            r.index_view().is_empty(),
            r.scheduled_view().len() == 0,
            r.elapsed_view() == 0,
            r.token_view() == 0,
            r.random_view() == random_state,
    {
        let system = GrassSystem {
            elapsed: 0,
            timers: map_new(),
            positions_by_chunk: map_new(),
            scheduled: Vec::new(),
            next_token: 0,
            random_state,
        };
        assert(system.index_view() =~= Map::empty());
        system
    }

    /// Forgets everything and seeds the random generator with `seed`, or 1
    /// for a zero seed.
    pub fn reset(&mut self, seed: u64)
        ensures
            final(self).wf(),
            final(self).timers_view().is_empty(),
            final(self).index_view().is_empty(),
            final(self).scheduled_view().len() == 0,
            final(self).elapsed_view() == 0,
            final(self).token_view() == 0,
            final(self).random_view() == (if seed < 1 {
                1
            } else {
                seed
            }),
    {
        *self = GrassSystem::seeded(
            if seed < 1 {
                1
            } else {
                seed
            },
        );
    }

    /// Whether the grass block at `position` is watched.
    pub fn is_watched(&self, position: IVec3) -> (r: bool)
        ensures
            r == self.watches(position),
    {
        map_contains(&self.timers, position_key(position))
    }

    fn next_token(&mut self) -> (r: u64)
        ensures
            r == old(self).token_view().wrapping_add(1),
            final(self).token_view() == r,
            final(self).elapsed == old(self).elapsed,
            final(self).timers == old(self).timers,
            final(self).positions_by_chunk == old(self).positions_by_chunk,
            final(self).scheduled == old(self).scheduled,
            final(self).random_state == old(self).random_state,
    {
        self.next_token = self.next_token.wrapping_add(1);
        self.next_token
    }

    /// Draws a random index below `length` from the xorshift generator.
    pub fn random_index(&mut self, length: usize) -> (r: usize)
        requires
            length > 0,
        ensures
            final(self).random_view() == xorshift(old(self).random_view()),
            r == (xorshift(old(self).random_view()) as usize) % length,
            final(self).elapsed_view() == old(self).elapsed_view(),
            final(self).timers_view() == old(self).timers_view(),
            final(self).index_view() == old(self).index_view(),
            final(self).scheduled_view() == old(self).scheduled_view(),
            final(self).token_view() == old(self).token_view(),
    {
        let mut value = self.random_state;
        value = value ^ (value << 13u64);
        value = value ^ (value >> 7u64);
        value = value ^ (value << 17u64);
        self.random_state = value;
        (value as usize) % length
    }

    /// Whether the grass block at `position` must decay.
    pub fn must_decay(&self, world: &World, position: IVec3) -> (r: bool)
        requires
            world.wf(),
            grass_in_range(position),
        ensures
            r == must_decay_spec(*world, position),
    {
        proof {
            reveal(must_decay_spec);
        }
        let above = world.block(IVec3 { y: position.y + 1, ..position });
        world.skylight(position) == 0 || (above != BlockId::AIR && !above.is_liquid())
    }

    /// Whether grass can spread to `position`.
    fn can_receive_grass(&self, world: &World, position: IVec3) -> (r: bool)
        requires
            world.wf(),
            global_in_range(position),
        ensures
            r == can_receive_spec(*world, position),
    {
        proof {
            reveal(can_receive_spec);
        }
        world.block(position) == BlockId::DIRT && world.skylight(position) > 0 && world.block(
            IVec3 { y: position.y + 1, ..position },
        ) == BlockId::AIR
    }

    /// Whether any spread direction leads to dirt that can turn to grass.
    fn has_spread_target(&self, world: &World, position: IVec3) -> (r: bool)
        requires
            world.wf(),
            grass_in_range(position),
        ensures
            r == has_spread_target_spec(*world, position),
    {
        let mut i: usize = 0;
        while i < 24
            invariant
                i <= 24,
                world.wf(),
                grass_in_range(position),
                forall|k: int| 0 <= k < i ==> !#[trigger] can_receive_spec(*world, step(position, k)),
            decreases 24 - i,
        {
            let d = spread_direction(i);
            let target = IVec3 { x: position.x + d.x, y: position.y + d.y, z: position.z + d.z };
            proof {
                law_spread_directions();
                let _ = spread_direction_spec(i as int);
            }
            assert(target == step(position, i as int));
            if self.can_receive_grass(world, target) {
                return true;
            }
            i = i + 1;
        }
        false
    }

    /// Starts watching the grass block at `position`, without a deadline,
    /// unless it is watched already.
    fn track(&mut self, position: IVec3)
        requires
            old(self).wf(),
            grass_in_range(position),
        ensures
            final(self).wf(),
            final(self).watches(position),
            old(self).watches(position) ==> final(self).timers_view() == old(self).timers_view(),
            !old(self).watches(position) ==> final(self).timers_view() == old(
                self,
            ).timers_view().insert(
                pos_key(position),
                GrassTimer { deadline: None, kind: None, token: final(self).token_view() },
            ),
            final(self).scheduled_view() == old(self).scheduled_view(),
            final(self).elapsed_view() == old(self).elapsed_view(),
            final(self).random_view() == old(self).random_view(),
    {
        let key = position_key(position);
        if map_contains(&self.timers, key) {
            return;
        }
        let token = self.next_token();
        map_insert(&mut self.timers, key, GrassTimer { deadline: None, kind: None, token });
        let (chunk, _) = split_global(position);
        let chunk_key = position_key(chunk);
        let ghost old_index = self.index_view();
        let mut positions = match map_remove(&mut self.positions_by_chunk, chunk_key) {
            Some(set) => set,
            None => set_new(),
        };
        let ghost old_set = positions@;
        set_insert(&mut positions, key);
        map_insert(&mut self.positions_by_chunk, chunk_key, positions);
        proof {
            lemma_pos_key(position);
            assert(old_index.contains_key(chunk_key) ==> old_set == old_index[chunk_key]);
            assert(!old_index.contains_key(chunk_key) ==> old_set == Set::<u128>::empty());
            assert(self.index_view() =~= old_index.insert(chunk_key, old_set.insert(key)));
            assert forall|k: u128| #[trigger] self.timers_view().contains_key(k) implies is_pos_key(k)
                && grass_in_range(key_pos(k)) && self.index_view().contains_key(
                pos_key(chunk_of(key_pos(k))),
            ) && self.index_view()[pos_key(chunk_of(key_pos(k)))].contains(k) by {
                if k != key {
                    assert(old(self).timers_view().contains_key(k));
                    assert(old_index[pos_key(chunk_of(key_pos(k)))].contains(k));
                }
            }
            assert forall|c: u128, k: u128|
                self.index_view().contains_key(c) && #[trigger] self.index_view()[c].contains(
                    k,
                ) implies self.timers_view().contains_key(k) && pos_key(chunk_of(key_pos(k)))
                == c by {
                assert(old_index == old(self).index_view());
                if k != key {
                    assert(old(self).index_view().contains_key(c) && old(self).index_view()[c].contains(k));
                }
            }
        }
    }

    /// Stops watching the block at `position`.
    fn untrack(&mut self, position: IVec3)
        requires
            old(self).wf(),
        ensures
            final(self).wf(),
            final(self).timers_view() == old(self).timers_view().remove(pos_key(position)),
            final(self).scheduled_view() == old(self).scheduled_view(),
            final(self).elapsed_view() == old(self).elapsed_view(),
            final(self).random_view() == old(self).random_view(),
            final(self).token_view() == old(self).token_view(),
    {
        let key = position_key(position);
        map_remove(&mut self.timers, key);
        let (chunk, _) = split_global(position);
        let chunk_key = position_key(chunk);
        let ghost old_index = self.index_view();
        match map_remove(&mut self.positions_by_chunk, chunk_key) {
            Some(mut positions) => {
                let ghost old_set = positions@;
                set_remove(&mut positions, key);
                if !set_is_empty(&positions) {
                    map_insert(&mut self.positions_by_chunk, chunk_key, positions);
                    proof {
                        assert(self.index_view() =~= old_index.insert(
                            chunk_key,
                            old_set.remove(key),
                        ));
                    }
                } else {
                    proof {
                        assert(self.index_view() =~= old_index.remove(chunk_key));
                        assert forall|k: u128| !old_set.contains(k) || k == key by {
                            if old_set.contains(k) && k != key {
                                assert(positions@.contains(k));
                            }
                        }
                    }
                }
            },
            None => {
                proof {
                    assert(self.index_view() =~= old_index);
                }
            },
        }
        proof {
            lemma_pos_key(position);
            assert forall|k: u128| #[trigger] self.timers_view().contains_key(k) implies is_pos_key(k)
                && grass_in_range(key_pos(k)) && self.index_view().contains_key(
                pos_key(chunk_of(key_pos(k))),
            ) && self.index_view()[pos_key(chunk_of(key_pos(k)))].contains(k) by {
                assert(old(self).timers_view().contains_key(k));
                assert(old_index[pos_key(chunk_of(key_pos(k)))].contains(k));
            }
            assert forall|c: u128, k: u128|
                self.index_view().contains_key(c) && #[trigger] self.index_view()[c].contains(
                    k,
                ) implies self.timers_view().contains_key(k) && pos_key(chunk_of(key_pos(k)))
                == c by {
                assert(old_index == old(self).index_view());
                assert(old(self).index_view().contains_key(c) && old(self).index_view()[c].contains(k));
            }
        }
    }

    /// Sets the deadline and kind of the timer at `position`, if it is
    /// watched, `delay` after the elapsed time, and schedules its tick. A new
    /// token is drawn either way.
    fn schedule(&mut self, position: IVec3, kind: TimerKind, delay: u128)
        requires
            old(self).wf(),
            0 < delay <= 60 * NANOS_PER_SECOND,
        ensures
            same_due(*old(self), *final(self)),
            final(self).wf(),
            final(self).token_view() == old(self).token_view().wrapping_add(1),
            old(self).watches(position) ==> final(self).timers_view() == old(
                self,
            ).timers_view().insert(
                pos_key(position),
                GrassTimer {
                    deadline: Some((old(self).elapsed_view() + delay) as u128),
                    kind: Some(kind),
                    token: final(self).token_view(),
                },
            ),
            !old(self).watches(position) ==> final(self).timers_view() == old(self).timers_view(),
            final(self).elapsed_view() == old(self).elapsed_view(),
            final(self).random_view() == old(self).random_view(),
            final(self).index_view() == old(self).index_view(),
    {
        let deadline = self.elapsed + delay;
        let token = self.next_token();
        let key = position_key(position);
        match map_get(&self.timers, key) {
            Some(_) => {
                map_insert(
                    &mut self.timers,
                    key,
                    GrassTimer { deadline: Some(deadline), kind: Some(kind), token },
                );
                let ghost before_insert = self.scheduled@;
                let at = insert_tick(&mut self.scheduled, ScheduledTick { deadline, token, position });
                proof {
                    lemma_due_ticks_insert(
                        before_insert,
                        at as int,
                        ScheduledTick { deadline, token, position },
                        self.elapsed,
                    );
                    lemma_pos_key(position);
                    assert forall|k: u128| #[trigger]
                        self.timers_view().contains_key(k) && self.timers_view()[k].deadline is Some
                            implies self.scheduled_view().contains(
                        ScheduledTick {
                            deadline: self.timers_view()[k].deadline->0,
                            token: self.timers_view()[k].token,
                            position: key_pos(k),
                        },
                    ) by {
                        let t = ScheduledTick {
                            deadline: self.timers_view()[k].deadline->0,
                            token: self.timers_view()[k].token,
                            position: key_pos(k),
                        };
                        if k == key {
                            assert(self.scheduled_view()[at as int] == t);
                        } else {
                            assert(old(self).timers_view().contains_key(k));
                            lemma_contains_after_insert(before_insert, at as int, ScheduledTick { deadline, token, position }, t);
                        }
                    }
                    assert(self.timers_view().dom() =~= old(self).timers_view().dom());
                    assert forall|k: u128| #[trigger] self.timers_view().contains_key(k) implies is_pos_key(k)
                        && grass_in_range(key_pos(k)) && self.index_view().contains_key(
                        pos_key(chunk_of(key_pos(k))),
                    ) && self.index_view()[pos_key(chunk_of(key_pos(k)))].contains(k) by {
                        assert(old(self).timers_view().contains_key(k));
                    }
                    assert forall|c: u128, k: u128|
                        self.index_view().contains_key(c) && #[trigger] self.index_view()[c].contains(
                            k,
                        ) implies self.timers_view().contains_key(k) by {
                        assert(old(self).index_view()[c].contains(k));
                    }
                }
            },
            None => {
                proof {
                    assert(self.timers_view() == old(self).timers_view());
                    assert(self.index_view() == old(self).index_view());
                }
            },
        }
    }

    /// Schedules the grass block at `position` to spread after the full interval.
    fn schedule_spread(&mut self, position: IVec3)
        requires
            old(self).wf(),
        ensures
            same_due(*old(self), *final(self)),
            final(self).wf(),
            final(self).token_view() == old(self).token_view().wrapping_add(1),
            old(self).watches(position) ==> final(self).timers_view() == old(
                self,
            ).timers_view().insert(
                pos_key(position),
                GrassTimer {
                    deadline: Some((old(self).elapsed_view() + RANDOM_TICK_INTERVAL_NANOS) as u128),
                    kind: Some(TimerKind::Spread),
                    token: final(self).token_view(),
                },
            ),
            !old(self).watches(position) ==> final(self).timers_view() == old(self).timers_view(),
            final(self).elapsed_view() == old(self).elapsed_view(),
            final(self).random_view() == old(self).random_view(),
            final(self).index_view() == old(self).index_view(),
    {
        self.schedule(position, TimerKind::Spread, RANDOM_TICK_INTERVAL_NANOS);
    }

    /// Schedules the grass block at `position` to decay after a random whole
    /// number of seconds between the shortest and the longest decay delay.
    fn schedule_decay(&mut self, position: IVec3)
        requires
            old(self).wf(),
        ensures
            same_due(*old(self), *final(self)),
            final(self).wf(),
            final(self).random_view() == xorshift(old(self).random_view()),
            final(self).token_view() == old(self).token_view().wrapping_add(1),
            old(self).watches(position) ==> final(self).timers_view() == old(
                self,
            ).timers_view().insert(
                pos_key(position),
                GrassTimer {
                    deadline: Some(
                        decay_deadline(
                            old(self).elapsed_view(),
                            decay_seconds(old(self).random_view()),
                        ),
                    ),
                    kind: Some(TimerKind::Decay),
                    token: final(self).token_view(),
                },
            ),
            !old(self).watches(position) ==> final(self).timers_view() == old(self).timers_view(),
            final(self).elapsed_view() == old(self).elapsed_view(),
            final(self).index_view() == old(self).index_view(),
    {
        let seconds = MIN_DECAY_SECONDS as usize + self.random_index(
            (MAX_DECAY_SECONDS - MIN_DECAY_SECONDS + 1) as usize,
        );
        self.schedule(position, TimerKind::Decay, seconds as u128 * NANOS_PER_SECOND);
    }

    /// Drops the deadline and kind of the timer at `position`, if it is
    /// watched, so that any scheduled tick for it goes stale.
    fn clear_deadline(&mut self, position: IVec3)
        requires
            old(self).wf_except(Some(pos_key(position))),
        ensures
            final(self).wf(),
            final(self).token_view() == old(self).token_view().wrapping_add(1),
            old(self).watches(position) ==> final(self).timers_view() == old(
                self,
            ).timers_view().insert(
                pos_key(position),
                GrassTimer { deadline: None, kind: None, token: final(self).token_view() },
            ),
            !old(self).watches(position) ==> final(self).timers_view() == old(self).timers_view(),
            final(self).scheduled_view() == old(self).scheduled_view(),
            final(self).elapsed_view() == old(self).elapsed_view(),
            final(self).random_view() == old(self).random_view(),
            final(self).index_view() == old(self).index_view(),
    {
        let token = self.next_token();
        let key = position_key(position);
        match map_get(&self.timers, key) {
            Some(_) => {
                map_insert(&mut self.timers, key, GrassTimer { deadline: None, kind: None, token });
                proof {
                    assert(self.timers_view().dom() =~= old(self).timers_view().dom());
                    assert forall|k: u128| #[trigger] self.timers_view().contains_key(k) implies is_pos_key(k)
                        && grass_in_range(key_pos(k)) && self.index_view().contains_key(
                        pos_key(chunk_of(key_pos(k))),
                    ) && self.index_view()[pos_key(chunk_of(key_pos(k)))].contains(k) by {
                        assert(old(self).timers_view().contains_key(k));
                    }
                    assert forall|c: u128, k: u128|
                        self.index_view().contains_key(c) && #[trigger] self.index_view()[c].contains(
                            k,
                        ) implies self.timers_view().contains_key(k) by {
                        assert(old(self).index_view()[c].contains(k));
                    }
                }
            },
            None => {
                proof {
                    assert(self.timers_view() == old(self).timers_view());
                    assert(self.index_view() == old(self).index_view());
                }
            },
        }
    }

    /// Whether the timer at `position` runs with the given kind.
    fn has_timer_kind(&self, position: IVec3, kind: TimerKind) -> (r: bool)
        ensures
            r == self.runs(position, kind),
    {
        match map_get(&self.timers, position_key(position)) {
            Some(timer) => timer.deadline.is_some() && match timer.kind {
                Some(k) => k == kind,
                None => false,
            },
            None => false,
        }
    }

    /// Brings the timer of the block at `position` in line with the world:
    /// grass is watched, and keeps a running timer of the right kind or gets
    /// a full new one; anything else is forgotten. Blocks too close to the
    /// coordinate limits for their neighbours to be addressed are never
    /// watched. Returns the number of blocks changed, which is zero.
    fn refresh(&mut self, world: &World, position: IVec3) -> (r: usize)
        requires
            old(self).wf(),
            world.wf(),
        ensures
            same_due(*old(self), *final(self)),
            final(self).wf(),
            r == 0,
            final(self).settled(*world, position),
            forall|q: IVec3| q != position ==> #[trigger] final(self).timer_of(q) == old(self).timer_of(q),
            final(self).elapsed_view() == old(self).elapsed_view(),
            grass_in_range(position) && world.block_at(position) == BlockId::GRASS ==> restarted(
                *old(self),
                *final(self),
                *world,
                position,
            ),
            kept_or_restarted(
                old(self).timer_of(position),
                final(self).timer_of(position),
                old(self).elapsed_view(),
                *world,
                position,
            ),
    {
        proof {
            lemma_pos_key(position);
            reveal(settled_timer);
        }
        if !in_grass_range(position) {
            proof {
                if old(self).timers_view().contains_key(pos_key(position)) {
                    assert(grass_in_range(key_pos(pos_key(position))));
                }
            }
            return 0;
        }
        if world.block(position) != BlockId::GRASS {
            self.untrack(position);
            proof {
                lemma_timer_remove(*old(self), *self, position);
            }
            return 0;
        }
        self.track(position);
        let ghost watched = *self;
        proof {
            if old(self).watches(position) {
                assert(watched.timers_view() == old(self).timers_view());
            } else {
                lemma_timer_insert(
                    *old(self),
                    watched,
                    position,
                    GrassTimer { deadline: None, kind: None, token: watched.token_view() },
                );
            }
            assert(watched.runs(position, TimerKind::Decay) == old(self).runs(
                position,
                TimerKind::Decay,
            ));
            assert(watched.runs(position, TimerKind::Spread) == old(self).runs(
                position,
                TimerKind::Spread,
            ));
        }
        self.settle_grass(world, position);
        proof {
            law_decay_delay_range(old(self).random_view());
            assert(old(self).runs(position, TimerKind::Decay) ==> watched.timer_of(position)
                == old(self).timer_of(position));
            assert(old(self).runs(position, TimerKind::Spread) ==> watched.timer_of(position)
                == old(self).timer_of(position));
        }
        0
    }

    /// Brings the timer of watched grass in line with the world.
    fn settle_grass(&mut self, world: &World, position: IVec3)
        requires
            old(self).wf(),
            world.wf(),
            grass_in_range(position),
            world.block_at(position) == BlockId::GRASS,
            old(self).watches(position),
        ensures
            same_due(*old(self), *final(self)),
            final(self).wf(),
            final(self).settled(*world, position),
            forall|q: IVec3| q != position ==> #[trigger] final(self).timer_of(q) == old(self).timer_of(q),
            final(self).elapsed_view() == old(self).elapsed_view(),
            restarted(*old(self), *final(self), *world, position),
    {
        proof {
            reveal(settled_timer);
        }
        if self.must_decay(world, position) {
            if !self.has_timer_kind(position, TimerKind::Decay) {
                self.schedule_decay(position);
                proof {
                    lemma_timer_insert(
                        *old(self),
                        *self,
                        position,
                        self.timers_view()[pos_key(position)],
                    );
                }
            }
            return;
        }
        if self.has_spread_target(world, position) {
            if !self.has_timer_kind(position, TimerKind::Spread) {
                self.schedule_spread(position);
                proof {
                    lemma_timer_insert(
                        *old(self),
                        *self,
                        position,
                        self.timers_view()[pos_key(position)],
                    );
                }
            }
        } else {
            self.clear_deadline(position);
            proof {
                lemma_timer_insert(*old(self), *self, position, self.timers_view()[pos_key(position)]);
            }
        }
    }

    /// Wakes the grass around fresh dirt: every grass block one spread
    /// direction back from `dirt` that need not decay is watched and, if its
    /// timer has no deadline, scheduled to spread.
    fn wake_nearby_sources(&mut self, world: &World, dirt: IVec3)
        requires
            old(self).wf(),
            world.wf(),
            grass_in_range(dirt),
        ensures
            same_due(*old(self), *final(self)),
            final(self).wf(),
            final(self).elapsed_view() == old(self).elapsed_view(),
            forall|i: int|
                0 <= i < 24 && grass_in_range(#[trigger] back_step(dirt, i)) && world.block_at(
                    back_step(dirt, i),
                ) == BlockId::GRASS && !must_decay_spec(*world, back_step(dirt, i)) ==> {
                    &&& final(self).watches(back_step(dirt, i))
                    &&& final(self).timers_view()[pos_key(back_step(dirt, i))].deadline is Some
                },
    {
        let mut i: usize = 0;
        while i < 24
            invariant
                i <= 24,
                self.wf(),
                world.wf(),
                grass_in_range(dirt),
                self.elapsed_view() == old(self).elapsed_view(),
                same_due(*old(self), *self),
                forall|k: int|
                    0 <= k < i && grass_in_range(#[trigger] back_step(dirt, k)) && world.block_at(
                        back_step(dirt, k),
                    ) == BlockId::GRASS && !must_decay_spec(*world, back_step(dirt, k)) ==> {
                        &&& self.watches(back_step(dirt, k))
                        &&& self.timers_view()[pos_key(back_step(dirt, k))].deadline is Some
                    },
            decreases 24 - i,
        {
            let d = spread_direction(i);
            let source = IVec3 { x: dirt.x - d.x, y: dirt.y - d.y, z: dirt.z - d.z };
            proof {
                law_spread_directions();
                let _ = spread_direction_spec(i as int);
            }
            assert(source == back_step(dirt, i as int));
            let ghost before = *self;
            if in_grass_range(source) && world.block(source) == BlockId::GRASS && !self.must_decay(
                world,
                source,
            ) {
                self.track(source);
                let ghost watched = *self;
                proof {
                    if before.watches(source) {
                        assert(watched.timers_view() == before.timers_view());
                    } else {
                        lemma_timer_insert(
                            before,
                            watched,
                            source,
                            GrassTimer { deadline: None, kind: None, token: watched.token_view() },
                        );
                    }
                }
                let idle = match map_get(&self.timers, position_key(source)) {
                    Some(timer) => timer.deadline.is_none(),
                    None => false,
                };
                if idle {
                    self.schedule_spread(source);
                    proof {
                        lemma_timer_insert(
                            watched,
                            *self,
                            source,
                            self.timers_view()[pos_key(source)],
                        );
                    }
                }
            }
            proof {
                assert forall|k: int|
                    0 <= k < i + 1 && grass_in_range(#[trigger] back_step(dirt, k))
                        && world.block_at(back_step(dirt, k)) == BlockId::GRASS && !must_decay_spec(
                        *world,
                        back_step(dirt, k),
                    ) implies {
                    &&& self.watches(back_step(dirt, k))
                    &&& self.timers_view()[pos_key(back_step(dirt, k))].deadline is Some
                } by {
                    if k < i {
                        lemma_back_steps_distinct(dirt, i as int, k);
                        assert(self.timer_of(back_step(dirt, k)) == before.timer_of(
                            back_step(dirt, k),
                        ));
                    }
                }
            }
            i = i + 1;
        }
    }

    /// Turns the grass block at `position` into dirt and wakes the grass
    /// around it. Returns the number of blocks changed: one.
    fn decay(&mut self, world: &mut World, position: IVec3) -> (r: usize)
        requires
            old(self).wf(),
            old(world).wf(),
            grass_in_range(position),
            old(world).block_at(position) == BlockId::GRASS,
        ensures
            same_due(*old(self), *final(self)),
            final(self).wf(),
            final(self).elapsed_view() == old(self).elapsed_view(),
            grass_only_turns(*old(world), *final(world)),
            r == 1,
            forall|g: IVec3| #[trigger]
                final(world).block_at(g) == if g == position {
                    BlockId::DIRT
                } else {
                    old(world).block_at(g)
                },
    {
        self.untrack(position);
        let changed = world.edit_block(position, BlockId::DIRT).is_some();
        if changed {
            self.wake_nearby_sources(world, position);
        }
        if changed {
            1
        } else {
            0
        }
    }

    /// Refreshes every block a change at `changed` can affect, each once.
    /// Returns the number of blocks changed, which is zero.
    fn refresh_around(&mut self, world: &World, changed: IVec3) -> (r: usize)
        requires
            old(self).wf(),
            world.wf(),
            neighbourhood_fits(changed),
        ensures
            same_due(*old(self), *final(self)),
            final(self).wf(),
            r == 0,
            final(self).elapsed_view() == old(self).elapsed_view(),
            forall|q: IVec3| #[trigger]
                affected_by(changed).contains(q) ==> final(self).settled(*world, q),
            forall|q: IVec3|
                !affected_by(changed).contains(q) ==> #[trigger] final(self).timer_of(q) == old(
                    self,
                ).timer_of(q),
            forall|q: IVec3| #[trigger]
                affected_by(changed).contains(q) ==> kept_or_restarted(
                    old(self).timer_of(q),
                    final(self).timer_of(q),
                    old(self).elapsed_view(),
                    *world,
                    q,
                ),
    {
        let affected = affected_positions(changed);
        let mut j: usize = 0;
        while j < affected.len()
            invariant
                j <= affected@.len(),
                self.wf(),
                world.wf(),
                self.elapsed_view() == old(self).elapsed_view(),
                forall|q: IVec3| affected@.contains(q) <==> #[trigger] affected_by(changed).contains(q),
                same_due(*old(self), *self),
                forall|k: int| 0 <= k < j ==> #[trigger] self.settled(*world, affected@[k]),
                forall|q: IVec3|
                    !affected@.contains(q) ==> #[trigger] self.timer_of(q) == old(self).timer_of(q),
                affected@.no_duplicates(),
                forall|k: int|
                    j <= k < affected@.len() ==> #[trigger] self.timer_of(affected@[k]) == old(
                        self,
                    ).timer_of(affected@[k]),
                forall|k: int|
                    0 <= k < j ==> kept_or_restarted(
                        old(self).timer_of(affected@[k]),
                        #[trigger] self.timer_of(affected@[k]),
                        old(self).elapsed_view(),
                        *world,
                        affected@[k],
                    ),
            decreases affected@.len() - j,
        {
            let ghost before = *self;
            let q = affected[j];
            assert(before.timer_of(affected@[j as int]) == old(self).timer_of(affected@[j as int]));
            self.refresh(world, q);
            proof {
                assert forall|k: int| 0 <= k < j + 1 implies kept_or_restarted(
                    old(self).timer_of(affected@[k]),
                    #[trigger] self.timer_of(affected@[k]),
                    old(self).elapsed_view(),
                    *world,
                    affected@[k],
                ) by {
                    if k < j {
                        assert(affected@[k] != affected@[j as int]);
                        assert(self.timer_of(affected@[k]) == before.timer_of(affected@[k]));
                        assert(kept_or_restarted(
                            old(self).timer_of(affected@[k]),
                            before.timer_of(affected@[k]),
                            old(self).elapsed_view(),
                            *world,
                            affected@[k],
                        ));
                    }
                }
                assert forall|k: int| j + 1 <= k < affected@.len() implies #[trigger] self.timer_of(
                    affected@[k],
                ) == old(self).timer_of(affected@[k]) by {
                    assert(affected@[k] != affected@[j as int]);
                    assert(self.timer_of(affected@[k]) == before.timer_of(affected@[k]));
                    assert(before.timer_of(affected@[k]) == old(self).timer_of(affected@[k]));
                }
                assert forall|k: int| 0 <= k < j + 1 implies #[trigger] self.settled(
                    *world,
                    affected@[k],
                ) by {
                    if affected@[k] != q {
                        assert(before.settled(*world, affected@[k]));
                        assert(self.timer_of(affected@[k]) == before.timer_of(affected@[k]));
                    }
                }
                assert forall|p: IVec3| !affected@.contains(p) implies #[trigger] self.timer_of(p)
                    == old(self).timer_of(p) by {
                    assert(p != q);
                    assert(self.timer_of(p) == before.timer_of(p));
                }
            }
            j = j + 1;
        }
        proof {
            assert forall|q: IVec3| #[trigger]
                affected_by(changed).contains(q) implies self.settled(*world, q) && kept_or_restarted(
                old(self).timer_of(q),
                self.timer_of(q),
                old(self).elapsed_view(),
                *world,
                q,
            ) by {
                assert(affected@.contains(q));
                let k = affected@.index_of(q);
                assert(self.settled(*world, affected@[k]));
                assert(kept_or_restarted(
                    old(self).timer_of(affected@[k]),
                    self.timer_of(affected@[k]),
                    old(self).elapsed_view(),
                    *world,
                    affected@[k],
                ));
            }
        }
        0
    }

    /// Refreshes the timers of the blocks a change at `changed` can affect:
    /// the block, the block below, and the grass one spread direction back
    /// from either. The world is left as it is; returns the number of blocks
    /// changed, which is zero.
    pub fn on_block_changed(&mut self, world: &mut World, changed: IVec3) -> (r: usize)
        requires
            old(self).wf(),
            old(world).wf(),
            neighbourhood_fits(changed),
        ensures
            final(self).wf(),
            r == 0,
            *final(world) == *old(world),
            final(self).elapsed_view() == old(self).elapsed_view(),
            forall|q: IVec3| #[trigger]
                affected_by(changed).contains(q) ==> final(self).settled(*final(world), q),
            forall|q: IVec3|
                !affected_by(changed).contains(q) ==> #[trigger] final(self).timer_of(q) == old(
                    self,
                ).timer_of(q),
            forall|q: IVec3| #[trigger]
                affected_by(changed).contains(q) ==> kept_or_restarted(
                    old(self).timer_of(q),
                    final(self).timer_of(q),
                    old(self).elapsed_view(),
                    *final(world),
                    q,
                ),
    {
        self.refresh_around(world, changed)
    }

    /// Runs the tick of the watched block at `position`: grass that must
    /// decay, on a decay tick, turns to dirt; otherwise eligible grass tries
    /// one random spread direction and turns lit dirt with air above into
    /// grass. The timers are refreshed after. Returns the number of blocks
    /// changed.
    #[verifier::rlimit(40)]
    fn execute_tick(&mut self, world: &mut World, position: IVec3, kind: Option<TimerKind>) -> (r:
        usize)
        requires
            old(self).wf_except(Some(pos_key(position))),
            old(world).wf(),
            old(self).watches(position),
        ensures
            same_due(*old(self), *final(self)),
            final(self).wf(),
            final(self).elapsed_view() == old(self).elapsed_view(),
            grass_only_turns(*old(world), *final(world)),
            r <= 1,
            tick_action(*old(world), *final(world), position, kind, old(self).random_view(), r as int),
    {
        proof {
            lemma_pos_key(position);
            assert(grass_in_range(key_pos(pos_key(position))));
            lemma_grass_only_turns_refl(*world);
        }
        self.clear_deadline(position);
        if world.block(position) != BlockId::GRASS {
            self.untrack(position);
            return 0;
        }
        let decaying = match kind {
            Some(TimerKind::Decay) => true,
            _ => false,
        };
        if decaying {
            if self.must_decay(world, position) {
                let r = self.decay(world, position);
                return r;
            } else {
                return self.refresh(world, position);
            }
        }
        if self.must_decay(world, position) {
            return self.refresh(world, position);
        }
        if !self.has_spread_target(world, position) {
            return 0;
        }
        let index = self.random_index(24);
        let direction = spread_direction(index);
        let target = IVec3 {
            x: position.x + direction.x,
            y: position.y + direction.y,
            z: position.z + direction.z,
        };
        proof {
            law_spread_directions();
            let _ = spread_direction_spec(index as int);
        }
        let mut mutations: usize = 0;
        if self.can_receive_grass(world, target) {
            let ghost before = *world;
            proof {
                reveal(can_receive_spec);
            }
            match world.edit_block(target, BlockId::GRASS) {
                Some(_) => {
                    if in_grass_range(target) {
                        self.track(target);
                    }
                    mutations = 1;
                    self.refresh_around(world, target);
                },
                None => {},
            }
        }
        self.refresh(world, position);
        mutations
    }

    /// Advances the clock by `delta_nanos` and runs, earliest first, the
    /// ticks that are due, up to the budget of one update; stale ticks are
    /// dropped without counting. Returns the number of blocks changed. No
    /// block changes when no tick is due.
    pub fn update(&mut self, delta_nanos: u128, world: &mut World) -> (r: usize)
        requires
            old(self).wf(),
            old(world).wf(),
            old(self).elapsed_view() + delta_nanos <= ELAPSED_LIMIT,
        ensures
            final(self).wf(),
            final(self).elapsed_view() == old(self).elapsed_view() + delta_nanos,
            grass_only_turns(*old(world), *final(world)),
            r <= RANDOM_TICK_BUDGET_PER_FRAME,
            none_due(old(self).scheduled_view(), final(self).elapsed_view()) ==> r == 0
                && *final(world) == *old(world),
            exists|
                systems: Seq<GrassSystem>,
                worlds: Seq<World>,
                ticks: Seq<ScheduledTick>,
                counts: Seq<int>,
            |
                #![trigger update_passes(systems, worlds, ticks, counts)]
                {
                    &&& update_passes(systems, worlds, ticks, counts)
                    &&& update_done(systems, ticks)
                    &&& systems[0].elapsed_view() == old(self).elapsed_view() + delta_nanos
                    &&& systems[0].scheduled_view() == old(self).scheduled_view()
                    &&& systems[0].timers_view() == old(self).timers_view()
                    &&& systems[0].index_view() == old(self).index_view()
                    &&& systems[0].token_view() == old(self).token_view()
                    &&& systems[0].random_view() == old(self).random_view()
                    &&& worlds[0] == *old(world)
                    &&& systems.last() == *final(self)
                    &&& worlds.last() == *final(world)
                    &&& r == changed_total(counts, counts.len() as int)
                },
    {
        self.elapsed = self.elapsed + delta_nanos;
        proof {
            assert(self.timers_view() == old(self).timers_view());
            assert(self.index_view() == old(self).index_view());
            assert(self.scheduled_view() == old(self).scheduled_view());
        }
        let ghost idle = none_due(old(self).scheduled_view(), self.elapsed_view());
        let ghost first = *self;
        let ghost mut systems: Seq<GrassSystem> = seq![*self];
        let ghost mut worlds: Seq<World> = seq![*world];
        let ghost mut ticks: Seq<ScheduledTick> = Seq::empty();
        let ghost mut counts: Seq<int> = Seq::empty();
        proof {
            lemma_grass_only_turns_refl(*world);
        }
        let mut mutations: usize = 0;
        let mut processed: usize = 0;
        while processed < RANDOM_TICK_BUDGET_PER_FRAME
            invariant
                self.wf(),
                world.wf(),
                self.elapsed_view() == old(self).elapsed_view() + delta_nanos,
                mutations <= processed <= RANDOM_TICK_BUDGET_PER_FRAME,
                grass_only_turns(*old(world), *world),
                idle ==> mutations == 0 && *world == *old(world) && self.scheduled_view() == old(
                    self,
                ).scheduled_view(),
                idle == none_due(old(self).scheduled_view(), self.elapsed_view()),
                update_passes(systems, worlds, ticks, counts),
                systems[0] == first,
                worlds[0] == *old(world),
                systems.last() == *self,
                worlds.last() == *world,
                mutations == changed_total(counts, counts.len() as int),
                processed == valid_passes(systems, ticks, ticks.len() as int),
            ensures
                update_done(systems, ticks),
            decreases RANDOM_TICK_BUDGET_PER_FRAME - processed, self.scheduled_view().len(),
        {
            let count = self.scheduled.len();
            if count == 0 {
                break;
            }
            let next = self.scheduled[count - 1];
            if next.deadline > self.elapsed {
                proof {
                    let s = self.scheduled_view();
                    assert forall|i: int| 0 <= i < s.len() implies #[trigger] s[i].deadline
                        > self.elapsed_view() by {
                        if i < s.len() - 1 {
                            assert(!tick_before(s[i], s[s.len() - 1]));
                        }
                    }
                }
                break;
            }
            proof {
                if idle {
                    assert(old(self).scheduled_view()[count - 1].deadline > self.elapsed_view());
                }
            }
            let ghost before_pop = *self;
            let ghost before_world = *world;
            self.scheduled.pop();
            proof {
                let s = before_pop.scheduled_view();
                assert(self.scheduled_view() =~= s.drop_last());
                assert forall|a: int, b: int|
                    0 <= a < b < self.scheduled_view().len() implies !#[trigger] tick_before(
                    self.scheduled_view()[a],
                    self.scheduled_view()[b],
                ) by {
                    assert(!tick_before(s[a], s[b]));
                }
                assert(self.timers_view() == before_pop.timers_view());
                assert(self.index_view() == before_pop.index_view());
                assert(due_ticks(s, self.elapsed_view()).drop_last() =~= due_ticks(
                    s.drop_last(),
                    self.elapsed_view(),
                ));
            }
            let valid = match map_get(&self.timers, position_key(next.position)) {
                Some(timer) => timer.token == next.token && match timer.deadline {
                    Some(d) => d == next.deadline,
                    None => false,
                },
                None => false,
            };
            proof {
                lemma_pos_key(next.position);
                let key = pos_key(next.position);
                let s = before_pop.scheduled_view();
                assert(tick_valid(before_pop, next) == valid);
                assert forall|k: u128| #[trigger]
                    self.timers_view().contains_key(k) && (valid ==> k != key)
                        && self.timers_view()[k].deadline is Some implies self.scheduled_view().contains(
                    ScheduledTick {
                        deadline: self.timers_view()[k].deadline->0,
                        token: self.timers_view()[k].token,
                        position: key_pos(k),
                    },
                ) by {
                    let t = ScheduledTick {
                        deadline: self.timers_view()[k].deadline->0,
                        token: self.timers_view()[k].token,
                        position: key_pos(k),
                    };
                    assert(before_pop.timers_view().contains_key(k));
                    assert(s.contains(t));
                    lemma_key_pos(k);
                    if t == next {
                        assert(k == key);
                        assert(tick_valid(before_pop, next));
                    }
                    lemma_contains_after_pop(s, t);
                }
                assert(valid ==> self.wf_except(Some(key)));
                assert(!valid ==> self.wf());
            }
            let mut changed: usize = 0;
            if valid {
                let kind = match map_get(&self.timers, position_key(next.position)) {
                    Some(timer) => timer.kind,
                    None => None,
                };
                changed = self.execute_tick(world, next.position, kind);
                proof {
                    lemma_grass_only_turns_trans(*old(world), before_world, *world);
                }
                mutations = mutations + changed;
                processed = processed + 1;
            }
            proof {
                let n = ticks.len() as int;
                let systems2 = systems.push(*self);
                let worlds2 = worlds.push(*world);
                let ticks2 = ticks.push(next);
                let counts2 = counts.push(changed as int);
                assert(tick_valid(before_pop, next) == valid);
                assert(tick_step(before_pop, before_world, *self, *world, next, changed as int));
                lemma_passes_prefix(systems, ticks, counts, systems2, ticks2, counts2, n);
                assert forall|i: int| 0 <= i < ticks2.len() implies #[trigger] tick_step(
                    systems2[i],
                    worlds2[i],
                    systems2[i + 1],
                    worlds2[i + 1],
                    ticks2[i],
                    counts2[i],
                ) by {
                    if i < n {
                        assert(systems2[i] == systems[i] && systems2[i + 1] == systems[i + 1]);
                        assert(worlds2[i] == worlds[i] && worlds2[i + 1] == worlds[i + 1]);
                        assert(ticks2[i] == ticks[i] && counts2[i] == counts[i]);
                    } else {
                        assert(systems2[i] == before_pop);
                        assert(worlds2[i] == before_world);
                    }
                }
                assert forall|i: int| 0 <= i < ticks2.len() implies #[trigger] valid_passes(
                    systems2,
                    ticks2,
                    i,
                ) < RANDOM_TICK_BUDGET_PER_FRAME by {
                    lemma_passes_prefix(systems, ticks, counts, systems2, ticks2, counts2, i);
                    if i < n {
                        assert(valid_passes(systems, ticks, i) < RANDOM_TICK_BUDGET_PER_FRAME);
                    }
                }
                assert(systems2[n] == before_pop);
                assert(valid_passes(systems2, ticks2, n + 1) == valid_passes(systems2, ticks2, n)
                    + if tick_valid(systems2[n], ticks2[n]) {
                    1int
                } else {
                    0int
                });
                assert(changed_total(counts2, n + 1) == changed_total(counts2, n) + counts2[n]);
                systems = systems2;
                worlds = worlds2;
                ticks = ticks2;
                counts = counts2;
            }
        }
        mutations
    }

    /// Forgets the timers of every block of the chunk at `chunk_position`.
    pub fn unload_chunk(&mut self, chunk_position: IVec3)
        requires
            old(self).wf(),
        ensures
            final(self).wf(),
            final(self).elapsed_view() == old(self).elapsed_view(),
            forall|q: IVec3|
                chunk_of(q) == chunk_position ==> #[trigger] final(self).timer_of(q) is None,
            forall|q: IVec3|
                chunk_of(q) != chunk_position ==> #[trigger] final(self).timer_of(q) == old(
                    self,
                ).timer_of(q),
    {
        let chunk_key = position_key(chunk_position);
        let ghost old_index = self.index_view();
        match map_remove(&mut self.positions_by_chunk, chunk_key) {
            Some(positions) => {
                let ghost members = positions@;
                proof {
                    assert(old_index.contains_key(chunk_key));
                    assert(members == old_index[chunk_key]);
                    assert(self.index_view() =~= old_index.remove(chunk_key));
                }
                let keys = set_keys(&positions);
                let mut i: usize = 0;
                while i < keys.len()
                    invariant
                        i <= keys@.len(),
                        forall|k: u128| members.contains(k) <==> #[trigger] keys@.contains(k),
                        self.index_view() == old_index.remove(chunk_key),
                        self.scheduled_view() == old(self).scheduled_view(),
                        self.elapsed_view() == old(self).elapsed_view(),
                        forall|k: u128| #[trigger]
                            self.timers_view().contains_key(k) ==> old(
                                self,
                            ).timers_view().contains_key(k) && self.timers_view()[k] == old(
                                self,
                            ).timers_view()[k],
                        forall|k: u128|
                            old(self).timers_view().contains_key(k) && !members.contains(k)
                                ==> #[trigger] self.timers_view().contains_key(k),
                        forall|j: int|
                            0 <= j < i ==> !self.timers_view().contains_key(#[trigger] keys@[j]),
                    decreases keys@.len() - i,
                {
                    let ghost before = self.timers_view();
                    map_remove(&mut self.timers, keys[i]);
                    proof {
                        assert(self.timers_view() == before.remove(keys@[i as int]));
                        assert forall|k: u128|
                            old(self).timers_view().contains_key(k) && !members.contains(k)
                                implies #[trigger] self.timers_view().contains_key(k) by {
                            assert(before.contains_key(k));
                            assert(keys@.contains(keys@[i as int]));
                            assert(keys@[i as int] != k);
                        }
                    }
                    i = i + 1;
                }
                proof {
                    assert forall|k: u128| members.contains(k) implies !#[trigger]
                        self.timers_view().contains_key(k) by {
                        assert(keys@.contains(k));
                        let j = keys@.index_of(k);
                        assert(!self.timers_view().contains_key(keys@[j]));
                    }
                    assert forall|k: u128| #[trigger]
                        self.timers_view().contains_key(k) implies is_pos_key(k) && grass_in_range(
                        key_pos(k),
                    ) && self.index_view().contains_key(pos_key(chunk_of(key_pos(k))))
                        && self.index_view()[pos_key(chunk_of(key_pos(k)))].contains(k) by {
                        assert(old(self).timers_view().contains_key(k));
                        assert(old_index[pos_key(chunk_of(key_pos(k)))].contains(k));
                        if pos_key(chunk_of(key_pos(k))) == chunk_key {
                            assert(members.contains(k));
                        }
                    }
                    assert forall|c: u128, k: u128|
                        self.index_view().contains_key(c) && #[trigger] self.index_view()[c].contains(
                            k,
                        ) implies self.timers_view().contains_key(k) && pos_key(
                        chunk_of(key_pos(k)),
                    ) == c by {
                        assert(old_index.contains_key(c) && old_index[c].contains(k));
                        if members.contains(k) {
                            assert(pos_key(chunk_of(key_pos(k))) == chunk_key);
                        }
                    }
                    assert forall|q: IVec3| chunk_of(q) == chunk_position implies #[trigger] self.timer_of(
                        q,
                    ) is None by {
                        lemma_pos_key(q);
                        if old(self).timers_view().contains_key(pos_key(q)) {
                            assert(old_index[pos_key(chunk_of(key_pos(pos_key(q))))].contains(
                                pos_key(q),
                            ));
                            assert(members.contains(pos_key(q)));
                        }
                    }
                    assert forall|q: IVec3| chunk_of(q) != chunk_position implies #[trigger] self.timer_of(
                        q,
                    ) == old(self).timer_of(q) by {
                        lemma_pos_key(q);
                        if members.contains(pos_key(q)) {
                            assert(old_index[chunk_key].contains(pos_key(q)));
                            assert(pos_key(chunk_of(key_pos(pos_key(q)))) == chunk_key);
                        }
                    }
                }
            },
            None => {
                proof {
                    assert(self.index_view() =~= old_index);
                    assert forall|q: IVec3| chunk_of(q) == chunk_position implies #[trigger] self.timer_of(
                        q,
                    ) is None by {
                        lemma_pos_key(q);
                        if old(self).timers_view().contains_key(pos_key(q)) {
                            assert(old_index.contains_key(pos_key(chunk_of(key_pos(pos_key(q))))));
                        }
                    }
                }
            },
        }
    }

    /// Starts watching the chunk at `chunk_position`: forgets its old timers,
    /// then watches and refreshes every grass block in it, in cell order.
    /// The world is left as it is; returns the number of blocks changed,
    /// which is zero.
    pub fn register_chunk(&mut self, world: &mut World, chunk_position: IVec3) -> (r: usize)
        requires
            old(self).wf(),
            old(world).wf(),
        ensures
            final(self).wf(),
            r == 0,
            *final(world) == *old(world),
            final(self).elapsed_view() == old(self).elapsed_view(),
            old(world).chunk_at(chunk_position) is Some ==> forall|q: IVec3|
                chunk_of(q) == chunk_position ==> #[trigger] final(self).settled(*final(world), q),
            forall|q: IVec3|
                chunk_of(q) == chunk_position ==> kept_or_restarted(
                    None,
                    #[trigger] final(self).timer_of(q),
                    old(self).elapsed_view(),
                    *final(world),
                    q,
                ),
            old(world).chunk_at(chunk_position) is None ==> forall|q: IVec3|
                chunk_of(q) == chunk_position ==> #[trigger] final(self).timer_of(q) is None,
            forall|q: IVec3|
                chunk_of(q) != chunk_position ==> #[trigger] final(self).timer_of(q) == old(
                    self,
                ).timer_of(q),
    {
        self.unload_chunk(chunk_position);
        let ghost unloaded = *self;
        let chunk = match world.chunk(chunk_position) {
            Some(c) => c,
            None => {
                proof {
                    assert forall|q: IVec3| chunk_of(q) == chunk_position implies kept_or_restarted(
                        None,
                        #[trigger] self.timer_of(q),
                        old(self).elapsed_view(),
                        *world,
                        q,
                    ) by {
                        assert(world.block_at(q) == BlockId::AIR);
                    }
                }
                return 0;
            },
        };
        proof {
            lemma_pos_key(chunk_position);
            assert(world.chunks_view().contains_key(pos_key(chunk_position)));
            assert(chunk_pos_in_range(key_pos(pos_key(chunk_position))));
            reveal(settled_timer);
        }
        let grass = grass_cells(world, chunk, chunk_position);
        let mut i: usize = 0;
        while i < grass.len()
            invariant
                i <= grass@.len(),
                self.wf(),
                world.wf(),
                self.elapsed_view() == old(self).elapsed_view(),
                forall|q: IVec3|
                    !grass@.contains(q) ==> #[trigger] self.timer_of(q) == unloaded.timer_of(q),
                forall|q: IVec3| #[trigger]
                    grass@.contains(q) ==> idle_timer(self.timer_of(q)),
                forall|q: IVec3| chunk_of(q) == chunk_position ==> #[trigger] unloaded.timer_of(q) is None,
                forall|q: IVec3| #[trigger] grass@.contains(q) ==> chunk_of(q) == chunk_position,
            decreases grass@.len() - i,
        {
            let p = grass[i];
            if in_grass_range(p) {
                let ghost before = *self;
                self.track(p);
                proof {
                    if before.watches(p) {
                        assert(self.timers_view() == before.timers_view());
                    } else {
                        lemma_timer_insert(before, *self, p, self.timers_view()[pos_key(p)]);
                    }
                    assert forall|q: IVec3| !grass@.contains(q) implies #[trigger] self.timer_of(q)
                        == unloaded.timer_of(q) by {
                        assert(q != p);
                        assert(self.timer_of(q) == before.timer_of(q));
                    }
                    assert forall|q: IVec3| #[trigger] grass@.contains(q) implies idle_timer(
                        self.timer_of(q),
                    ) by {
                        if q != p {
                            assert(self.timer_of(q) == before.timer_of(q));
                        }
                    }
                }
            }
            i = i + 1;
        }
        let ghost tracked_state = *self;
        let mut j: usize = 0;
        while j < grass.len()
            invariant
                j <= grass@.len(),
                self.wf(),
                world.wf(),
                self.elapsed_view() == old(self).elapsed_view(),
                forall|q: IVec3|
                    !grass@.contains(q) ==> #[trigger] self.timer_of(q) == unloaded.timer_of(q),
                forall|k: int| 0 <= k < j ==> #[trigger] self.settled(*world, grass@[k]),
                grass@.no_duplicates(),
                forall|k: int|
                    j <= k < grass@.len() ==> #[trigger] self.timer_of(grass@[k])
                        == tracked_state.timer_of(grass@[k]),
                forall|q: IVec3| #[trigger]
                    grass@.contains(q) ==> idle_timer(tracked_state.timer_of(q)),
                forall|k: int|
                    0 <= k < j ==> kept_or_restarted(
                        None,
                        #[trigger] self.timer_of(grass@[k]),
                        old(self).elapsed_view(),
                        *world,
                        grass@[k],
                    ),
            decreases grass@.len() - j,
        {
            let ghost before = *self;
            let p = grass[j];
            assert(before.timer_of(grass@[j as int]) == tracked_state.timer_of(grass@[j as int]));
            assert(grass@.contains(p));
            self.refresh(world, p);
            proof {
                lemma_idle_restart(before.timer_of(p), self.timer_of(p), old(self).elapsed_view(), *world, p);
                assert forall|k: int| 0 <= k < j + 1 implies kept_or_restarted(
                    None,
                    #[trigger] self.timer_of(grass@[k]),
                    old(self).elapsed_view(),
                    *world,
                    grass@[k],
                ) by {
                    if k < j {
                        assert(grass@[k] != p);
                        assert(self.timer_of(grass@[k]) == before.timer_of(grass@[k]));
                    }
                }
                assert forall|k: int| j + 1 <= k < grass@.len() implies #[trigger] self.timer_of(
                    grass@[k],
                ) == tracked_state.timer_of(grass@[k]) by {
                    assert(grass@[k] != p);
                    assert(self.timer_of(grass@[k]) == before.timer_of(grass@[k]));
                }
                assert forall|k: int| 0 <= k < j + 1 implies #[trigger] self.settled(
                    *world,
                    grass@[k],
                ) by {
                    if grass@[k] != p {
                        assert(before.settled(*world, grass@[k]));
                        assert(self.timer_of(grass@[k]) == before.timer_of(grass@[k]));
                    }
                }
                assert forall|q: IVec3| !grass@.contains(q) implies #[trigger] self.timer_of(q)
                    == unloaded.timer_of(q) by {
                    assert(q != p);
                    assert(self.timer_of(q) == before.timer_of(q));
                }
            }
            j = j + 1;
        }
        proof {
            assert forall|q: IVec3| chunk_of(q) == chunk_position implies #[trigger] self.settled(
                *world,
                q,
            ) by {
                if grass@.contains(q) {
                    let k = grass@.index_of(q);
                    assert(self.settled(*world, grass@[k]));
                } else {
                    assert(world.block_at(q) != BlockId::GRASS);
                    assert(self.timer_of(q) == unloaded.timer_of(q));
                }
            }
            assert forall|q: IVec3| chunk_of(q) == chunk_position implies kept_or_restarted(
                None,
                #[trigger] self.timer_of(q),
                old(self).elapsed_view(),
                *world,
                q,
            ) by {
                if grass@.contains(q) {
                    let k = grass@.index_of(q);
                    assert(kept_or_restarted(
                        None,
                        self.timer_of(grass@[k]),
                        old(self).elapsed_view(),
                        *world,
                        grass@[k],
                    ));
                } else {
                    assert(world.block_at(q) != BlockId::GRASS);
                }
            }
            assert forall|q: IVec3| chunk_of(q) != chunk_position implies #[trigger] self.timer_of(q)
                == old(self).timer_of(q) by {
                assert(!grass@.contains(q));
                assert(self.timer_of(q) == unloaded.timer_of(q));
            }
        }
        0
    }

    /// The watched blocks of the chunk at `chunk`, each once.
    fn watched_in_chunk(&self, chunk: IVec3) -> (r: Vec<IVec3>)
        requires
            self.wf(),
        ensures
            forall|q: IVec3| #[trigger]
                r@.contains(q) <==> self.watches(q) && chunk_of(q) == chunk,
            r@.no_duplicates(),
    {
        let mut found: Vec<IVec3> = Vec::new();
        let chunk_key = position_key(chunk);
        match map_get(&self.positions_by_chunk, chunk_key) {
            Some(set) => {
                let keys = set_keys(set);
                proof {
                    assert(set@ == self.index_view()[chunk_key]);
                }
                let mut i: usize = 0;
                while i < keys.len()
                    invariant
                        i <= keys@.len(),
                        self.wf(),
                        self.index_view().contains_key(chunk_key),
                        chunk_key == pos_key(chunk),
                        forall|k: u128|
                            self.index_view()[chunk_key].contains(k) <==> #[trigger] keys@.contains(
                                k,
                            ),
                        found@.len() == i,
                        forall|j: int| 0 <= j < i ==> #[trigger] found@[j] == key_pos(keys@[j]),
                    decreases keys@.len() - i,
                {
                    let key = keys[i];
                    proof {
                        assert(keys@.contains(key));
                        assert(self.index_view()[chunk_key].contains(key));
                        assert(self.timers_view().contains_key(key));
                    }
                    found.push(key_position(key));
                    i = i + 1;
                }
                proof {
                    assert forall|a: int, b: int| 0 <= a < b < found@.len() implies found@[a]
                        != found@[b] by {
                        let ka = keys@[a];
                        let kb = keys@[b];
                        assert(keys@.contains(ka) && keys@.contains(kb));
                        assert(self.timers_view().contains_key(ka) && self.timers_view().contains_key(kb));
                        lemma_key_pos(ka);
                        lemma_key_pos(kb);
                    }
                    assert forall|q: IVec3| #[trigger]
                        found@.contains(q) <==> self.watches(q) && chunk_of(q) == chunk by {
                        lemma_pos_key(q);
                        if found@.contains(q) {
                            let j = found@.index_of(q);
                            let k = keys@[j];
                            assert(keys@.contains(k));
                            assert(self.index_view()[chunk_key].contains(k));
                            assert(self.timers_view().contains_key(k));
                            lemma_key_pos(k);
                            assert(pos_key(q) == k);
                        }
                        if self.watches(q) && chunk_of(q) == chunk {
                            assert(self.index_view()[pos_key(chunk_of(key_pos(pos_key(q))))].contains(
                                pos_key(q),
                            ));
                            assert(keys@.contains(pos_key(q)));
                            let j = keys@.index_of(pos_key(q));
                            assert(found@[j] == q);
                        }
                    }
                }
            },
            None => {
                proof {
                    assert forall|q: IVec3| #[trigger]
                        found@.contains(q) <==> self.watches(q) && chunk_of(q) == chunk by {
                        lemma_pos_key(q);
                        if self.watches(q) {
                            assert(self.index_view().contains_key(
                                pos_key(chunk_of(key_pos(pos_key(q)))),
                            ));
                        }
                    }
                }
            },
        }
        found
    }

    /// Refreshes every watched block of the chunk at `chunk_position` and of
    /// the chunks around it, after their light changed. The world is left as
    /// it is; returns the number of blocks changed, which is zero.
    pub fn on_lighting_changed(&mut self, world: &mut World, chunk_position: IVec3) -> (r: usize)
        requires
            old(self).wf(),
            old(world).wf(),
            i32::MIN < chunk_position.x < i32::MAX,
            i32::MIN < chunk_position.y < i32::MAX,
            i32::MIN < chunk_position.z < i32::MAX,
        ensures
            final(self).wf(),
            r == 0,
            *final(world) == *old(world),
            final(self).elapsed_view() == old(self).elapsed_view(),
            forall|q: IVec3|
                chunks_near(chunk_of(q), chunk_position) && old(self).watches(q)
                    ==> #[trigger] final(self).settled(*final(world), q),
            forall|q: IVec3|
                !(chunks_near(chunk_of(q), chunk_position) && old(self).watches(q))
                    ==> #[trigger] final(self).timer_of(q) == old(self).timer_of(q),
            forall|q: IVec3|
                chunks_near(chunk_of(q), chunk_position) && old(self).watches(q)
                    ==> kept_or_restarted(
                    old(self).timer_of(q),
                    #[trigger] final(self).timer_of(q),
                    old(self).elapsed_view(),
                    *final(world),
                    q,
                ),
    {
        let mut positions: Vec<IVec3> = Vec::new();
        let mut e: usize = 0;
        while e < 27
            invariant
                e <= 27,
                self.wf(),
                *self == *old(self),
                i32::MIN < chunk_position.x < i32::MAX,
                i32::MIN < chunk_position.y < i32::MAX,
                i32::MIN < chunk_position.z < i32::MAX,
                forall|q: IVec3| #[trigger]
                    positions@.contains(q) <==> self.watches(q) && exists|f: int|
                        0 <= f < e && chunk_of(q) == #[trigger] offset_chunk(chunk_position, f),
                positions@.no_duplicates(),
            decreases 27 - e,
        {
            let neighbour = IVec3 {
                x: (chunk_position.x - 1) + (e / 9) as i32,
                y: (chunk_position.y - 1) + ((e / 3) % 3) as i32,
                z: (chunk_position.z - 1) + (e % 3) as i32,
            };
            assert(neighbour == offset_chunk(chunk_position, e as int));
            let mut part = self.watched_in_chunk(neighbour);
            let ghost before = positions@;
            let ghost added = part@;
            positions.append(&mut part);
            proof {
                assert(positions@ == before + added);
                assert forall|a: int, b: int| 0 <= a < b < positions@.len() implies positions@[a]
                    != positions@[b] by {
                    if b >= before.len() && a < before.len() {
                        let q = positions@[b];
                        assert(added[b - before.len()] == q);
                        assert(added.contains(q));
                        assert(before[a] == positions@[a]);
                        assert(before.contains(positions@[a]));
                        if positions@[a] == q {
                            let f = choose|f: int|
                                0 <= f < e && chunk_of(q) == #[trigger] offset_chunk(chunk_position, f);
                            lemma_offsets_distinct(chunk_position, f, e as int);
                        }
                    } else if a >= before.len() {
                        assert(added[a - before.len()] == positions@[a]);
                        assert(added[b - before.len()] == positions@[b]);
                    } else {
                        assert(before[a] == positions@[a] && before[b] == positions@[b]);
                    }
                }
                assert forall|q: IVec3| #[trigger]
                    positions@.contains(q) <==> self.watches(q) && exists|f: int|
                        0 <= f < e + 1 && chunk_of(q) == #[trigger] offset_chunk(chunk_position, f) by {
                    if before.contains(q) {
                        let k = before.index_of(q);
                        assert(positions@[k] == q);
                    }
                    if added.contains(q) {
                        let k = added.index_of(q);
                        assert(positions@[before.len() + k] == q);
                    }
                    if positions@.contains(q) {
                        let k = positions@.index_of(q);
                        if k < before.len() {
                            assert(before[k] == q);
                        } else {
                            assert(added[k - before.len()] == q);
                        }
                    }
                    if self.watches(q) && exists|f: int|
                        0 <= f < e + 1 && chunk_of(q) == #[trigger] offset_chunk(chunk_position, f) {
                        let f = choose|f: int|
                            0 <= f < e + 1 && chunk_of(q) == #[trigger] offset_chunk(chunk_position, f);
                        if f < e {
                            assert(before.contains(q));
                        } else {
                            assert(added.contains(q));
                        }
                    }
                }
            }
            e = e + 1;
        }
        proof {
            assert forall|q: IVec3| #[trigger]
                positions@.contains(q) <==> old(self).watches(q) && chunks_near(
                    chunk_of(q),
                    chunk_position,
                ) by {
                lemma_near_offsets(chunk_of(q), chunk_position);
            }
        }
        let mut j: usize = 0;
        while j < positions.len()
            invariant
                j <= positions@.len(),
                self.wf(),
                world.wf(),
                self.elapsed_view() == old(self).elapsed_view(),
                forall|k: int| 0 <= k < j ==> #[trigger] self.settled(*world, positions@[k]),
                forall|q: IVec3|
                    !positions@.contains(q) ==> #[trigger] self.timer_of(q) == old(self).timer_of(q),
                positions@.no_duplicates(),
                forall|k: int|
                    j <= k < positions@.len() ==> #[trigger] self.timer_of(positions@[k]) == old(
                        self,
                    ).timer_of(positions@[k]),
                forall|k: int|
                    0 <= k < j ==> kept_or_restarted(
                        old(self).timer_of(positions@[k]),
                        #[trigger] self.timer_of(positions@[k]),
                        old(self).elapsed_view(),
                        *world,
                        positions@[k],
                    ),
            decreases positions@.len() - j,
        {
            let ghost before = *self;
            let q = positions[j];
            assert(before.timer_of(positions@[j as int]) == old(self).timer_of(positions@[j as int]));
            self.refresh(world, q);
            proof {
                assert forall|k: int| 0 <= k < j + 1 implies kept_or_restarted(
                    old(self).timer_of(positions@[k]),
                    #[trigger] self.timer_of(positions@[k]),
                    old(self).elapsed_view(),
                    *world,
                    positions@[k],
                ) by {
                    if k < j {
                        assert(positions@[k] != q);
                        assert(self.timer_of(positions@[k]) == before.timer_of(positions@[k]));
                    }
                }
                assert forall|k: int| j + 1 <= k < positions@.len() implies #[trigger] self.timer_of(
                    positions@[k],
                ) == old(self).timer_of(positions@[k]) by {
                    assert(positions@[k] != q);
                    assert(self.timer_of(positions@[k]) == before.timer_of(positions@[k]));
                }
                assert forall|k: int| 0 <= k < j + 1 implies #[trigger] self.settled(
                    *world,
                    positions@[k],
                ) by {
                    if positions@[k] != q {
                        assert(before.settled(*world, positions@[k]));
                        assert(self.timer_of(positions@[k]) == before.timer_of(positions@[k]));
                    }
                }
                assert forall|p: IVec3| !positions@.contains(p) implies #[trigger] self.timer_of(p)
                    == old(self).timer_of(p) by {
                    assert(p != q);
                    assert(self.timer_of(p) == before.timer_of(p));
                }
            }
            j = j + 1;
        }
        proof {
            assert forall|q: IVec3|
                chunks_near(chunk_of(q), chunk_position) && old(self).watches(q) implies #[trigger] self.settled(
                *world,
                q,
            ) by {
                assert(positions@.contains(q));
                let k = positions@.index_of(q);
                assert(self.settled(*world, positions@[k]));
            }
            assert forall|q: IVec3|
                chunks_near(chunk_of(q), chunk_position) && old(self).watches(q) implies kept_or_restarted(
                old(self).timer_of(q),
                #[trigger] self.timer_of(q),
                old(self).elapsed_view(),
                *world,
                q,
            ) by {
                assert(positions@.contains(q));
                let k = positions@.index_of(q);
                assert(kept_or_restarted(
                    old(self).timer_of(positions@[k]),
                    self.timer_of(positions@[k]),
                    old(self).elapsed_view(),
                    *world,
                    positions@[k],
                ));
            }
        }
        0
    }
}

/// Whether a list holds a position.
fn holds_position(positions: &Vec<IVec3>, p: IVec3) -> (r: bool)
    ensures
        r == positions@.contains(p),
{
    let mut i: usize = 0;
    while i < positions.len()
        invariant
            i <= positions@.len(),
            forall|k: int| 0 <= k < i ==> positions@[k] != p,
        decreases positions@.len() - i,
    {
        if positions[i] == p {
            return true;
        }
        i = i + 1;
    }
    false
}

/// Adds a position to a list unless the list holds it already.
fn push_new_position(positions: &mut Vec<IVec3>, p: IVec3)
    ensures
        forall|q: IVec3| #[trigger]
            final(positions)@.contains(q) <==> old(positions)@.contains(q) || q == p,
        old(positions)@.no_duplicates() ==> final(positions)@.no_duplicates(),
{
    if !holds_position(positions, p) {
        positions.push(p);
        proof {
            assert forall|q: IVec3| #[trigger]
                positions@.contains(q) <==> old(positions)@.contains(q) || q == p by {
                if old(positions)@.contains(q) {
                    let k = old(positions)@.index_of(q);
                    assert(positions@[k] == q);
                }
                if q == p {
                    assert(positions@[positions@.len() - 1] == p);
                }
                if positions@.contains(q) && q != p {
                    let k = positions@.index_of(q);
                    assert(old(positions)@[k] == q);
                }
            }
            if old(positions)@.no_duplicates() {
                assert forall|a: int, b: int|
                    0 <= a < b < positions@.len() implies positions@[a] != positions@[b] by {
                    if b == positions@.len() - 1 {
                        assert(old(positions)@.contains(positions@[a]));
                    }
                }
            }
        }
    }
}

/// The blocks among those a change at `changed` can affect that are found
/// after going through `n_here` directions back from the block and `n_below`
/// back from the block below it.
spec fn collected(changed: IVec3, n_here: int, n_below: int, q: IVec3) -> bool {
    ||| q == changed
    ||| q == below(changed)
    ||| exists|i: int| 0 <= i < n_here && q == #[trigger] back_step(changed, i)
    ||| exists|i: int| 0 <= i < n_below && q == #[trigger] back_step(below(changed), i)
}

/// The blocks a change at `changed` can affect, each once.
fn affected_positions(changed: IVec3) -> (r: Vec<IVec3>)
    requires
        neighbourhood_fits(changed),
    ensures
        forall|q: IVec3| r@.contains(q) <==> #[trigger] affected_by(changed).contains(q),
        r@.no_duplicates(),
{
    let under = IVec3 { x: changed.x, y: changed.y - 1, z: changed.z };
    let mut positions: Vec<IVec3> = Vec::new();
    push_new_position(&mut positions, changed);
    push_new_position(&mut positions, under);
    let mut i: usize = 0;
    while i < 24
        invariant
            i <= 24,
            neighbourhood_fits(changed),
            under == below(changed),
            forall|q: IVec3| #[trigger] positions@.contains(q) <==> collected(changed, i as int, 0, q),
            positions@.no_duplicates(),
        decreases 24 - i,
    {
        let d = spread_direction(i);
        let p = IVec3 { x: changed.x - d.x, y: changed.y - d.y, z: changed.z - d.z };
        proof {
            law_spread_directions();
            let _ = spread_direction_spec(i as int);
        }
        assert(p == back_step(changed, i as int));
        push_new_position(&mut positions, p);
        proof {
            assert forall|q: IVec3| #[trigger] positions@.contains(q) <==> collected(
                changed,
                i + 1,
                0,
                q,
            ) by {
                if q == p {
                    assert(collected(changed, i + 1, 0, q));
                }
            }
        }
        i = i + 1;
    }
    let mut i: usize = 0;
    while i < 24
        invariant
            i <= 24,
            neighbourhood_fits(changed),
            under == below(changed),
            forall|q: IVec3| #[trigger] positions@.contains(q) <==> collected(changed, 24, i as int, q),
            positions@.no_duplicates(),
        decreases 24 - i,
    {
        let d = spread_direction(i);
        let p = IVec3 { x: under.x - d.x, y: under.y - d.y, z: under.z - d.z };
        proof {
            law_spread_directions();
            let _ = spread_direction_spec(i as int);
        }
        assert(p == back_step(under, i as int));
        push_new_position(&mut positions, p);
        proof {
            assert forall|q: IVec3| #[trigger] positions@.contains(q) <==> collected(
                changed,
                24,
                i + 1,
                q,
            ) by {
                if q == p {
                    assert(collected(changed, 24, i + 1, q));
                }
            }
        }
        i = i + 1;
    }
    proof {
        assert forall|q: IVec3| positions@.contains(q) <==> #[trigger] affected_by(changed).contains(q) by {
            assert(positions@.contains(q) <==> collected(changed, 24, 24, q));
            assert(affected_by(changed).contains(q) == is_affected(changed, q));
        }
    }
    positions
}

/// The grass blocks of the chunk at `chunk_position` whose cell index is
/// below `n`.
spec fn grass_cell_below(world: World, chunk_position: IVec3, n: int, q: IVec3) -> bool {
    &&& chunk_of(q) == chunk_position
    &&& world.block_at(q) == BlockId::GRASS
    &&& local_index(local_of(q)) < n
}

/// The positions of the grass blocks of a loaded chunk, in cell order.
fn grass_cells(world: &World, chunk: &Chunk, chunk_position: IVec3) -> (r: Vec<IVec3>)
    requires
        world.wf(),
        world.chunk_at(chunk_position) == Some(*chunk),
        chunk_pos_in_range(chunk_position),
    ensures
        forall|q: IVec3| #[trigger]
            r@.contains(q) <==> chunk_of(q) == chunk_position && world.block_at(q)
                == BlockId::GRASS,
        r@.no_duplicates(),
{
    proof {
        assert(chunk.wf());
    }
    let mut grass: Vec<IVec3> = Vec::new();
    let mut index: u16 = 0;
    while index < 4096
        invariant
            index <= 4096,
            world.wf(),
            chunk.wf(),
            world.chunk_at(chunk_position) == Some(*chunk),
            chunk_pos_in_range(chunk_position),
            forall|q: IVec3| #[trigger]
                grass@.contains(q) <==> grass_cell_below(*world, chunk_position, index as int, q),
            grass@.no_duplicates(),
        decreases 4096 - index,
    {
        let local = decode_local(index);
        proof {
            lemma_index_local_roundtrip(index as int);
        }
        if chunk.block(local) == BlockId::GRASS {
            let g = global_from_local(chunk_position, local);
            let ghost before = grass@;
            grass.push(g);
            proof {
                law_split_join_roundtrip(g, chunk_position, local);
                assert forall|q: IVec3| #[trigger]
                    grass@.contains(q) <==> grass_cell_below(
                        *world,
                        chunk_position,
                        index + 1,
                        q,
                    ) by {
                    if q == g {
                        assert(grass@[grass@.len() - 1] == g);
                    } else {
                        lemma_cell_of(q, chunk_position, index as int);
                        if before.contains(q) {
                            let k = before.index_of(q);
                            assert(grass@[k] == q);
                        }
                        if grass@.contains(q) {
                            let k = grass@.index_of(q);
                            assert(before[k] == q);
                        }
                    }
                }
                assert(!before.contains(g));
                assert forall|a: int, b: int| 0 <= a < b < grass@.len() implies grass@[a]
                    != grass@[b] by {
                    if b == grass@.len() - 1 {
                        assert(before.contains(grass@[a]));
                    }
                }
            }
        } else {
            proof {
                assert forall|q: IVec3| #[trigger]
                    grass@.contains(q) <==> grass_cell_below(
                        *world,
                        chunk_position,
                        index + 1,
                        q,
                    ) by {
                    lemma_cell_of(q, chunk_position, index as int);
                }
            }
        }
        index = index + 1;
    }
    grass
}

/// A block of a chunk whose cell has the given index sits at that cell.
proof fn lemma_cell_of(q: IVec3, chunk_position: IVec3, index: int)
    requires
        0 <= index < 4096,
        chunk_pos_in_range(chunk_position),
    ensures
        chunk_of(q) == chunk_position && local_index(local_of(q)) == index ==> q == global_of(
            chunk_position,
            index_local(index),
        ),
{
    if chunk_of(q) == chunk_position && local_index(local_of(q)) == index {
        lemma_index_local_roundtrip(index);
        let local = index_local(index);
        law_split_join_roundtrip(q, chunk_position, local);
        crate::chunk::law_local_encoding_roundtrip(
            local_of(q).x as int,
            local_of(q).y as int,
            local_of(q).z as int,
            index,
        );
    }
}

/// Two chunk positions are equal or neighbours, edges and corners included.
pub open spec fn chunks_near(a: IVec3, b: IVec3) -> bool {
    &&& -1 <= a.x - b.x <= 1
    &&& -1 <= a.y - b.y <= 1
    &&& -1 <= a.z - b.z <= 1
}

/// The `index`-th of the 27 chunks around `center`, by x, then y, then z.
spec fn offset_chunk(center: IVec3, index: int) -> IVec3 {
    IVec3 {
        x: (center.x + index / 9 - 1) as i32,
        y: (center.y + (index / 3) % 3 - 1) as i32,
        z: (center.z + index % 3 - 1) as i32,
    }
}

/// The 27 chunks around `center` are distinct.
proof fn lemma_offsets_distinct(center: IVec3, f: int, e: int)
    requires
        i32::MIN < center.x < i32::MAX,
        i32::MIN < center.y < i32::MAX,
        i32::MIN < center.z < i32::MAX,
        0 <= f < e < 27,
    ensures
        offset_chunk(center, f) != offset_chunk(center, e),
{
    assert(0 <= f / 9 < 3 && 0 <= (f / 3) % 3 < 3 && 0 <= f % 3 < 3) by (nonlinear_arith)
        requires
            0 <= f < 27,
    ;
    assert(0 <= e / 9 < 3 && 0 <= (e / 3) % 3 < 3 && 0 <= e % 3 < 3) by (nonlinear_arith)
        requires
            0 <= e < 27,
    ;
    assert(f == (f / 9) * 9 + ((f / 3) % 3) * 3 + f % 3) by (nonlinear_arith)
        requires
            0 <= f < 27,
    ;
    assert(e == (e / 9) * 9 + ((e / 3) % 3) * 3 + e % 3) by (nonlinear_arith)
        requires
            0 <= e < 27,
    ;
}

/// The chunks around `center` are exactly its 27 offsets.
proof fn lemma_near_offsets(c: IVec3, center: IVec3)
    requires
        i32::MIN < center.x < i32::MAX,
        i32::MIN < center.y < i32::MAX,
        i32::MIN < center.z < i32::MAX,
    ensures
        chunks_near(c, center) <==> exists|f: int|
            0 <= f < 27 && c == #[trigger] offset_chunk(center, f),
{
    if chunks_near(c, center) {
        let a = c.x - center.x + 1;
        let b = c.y - center.y + 1;
        let d = c.z - center.z + 1;
        let f = a * 9 + b * 3 + d;
        assert(f / 9 == a && (f / 3) % 3 == b && f % 3 == d && 0 <= f < 27) by (nonlinear_arith)
            requires
                0 <= a < 3,
                0 <= b < 3,
                0 <= d < 3,
                f == a * 9 + b * 3 + d,
        ;
        assert(c == offset_chunk(center, f));
    }
    if exists|f: int| 0 <= f < 27 && c == #[trigger] offset_chunk(center, f) {
        let f = choose|f: int| 0 <= f < 27 && c == #[trigger] offset_chunk(center, f);
        assert(0 <= f / 9 < 3 && 0 <= (f / 3) % 3 < 3 && 0 <= f % 3 < 3) by (nonlinear_arith)
            requires
                0 <= f < 27,
        ;
    }
}

/// How refreshing watched grass treats its timer: a running timer of the
/// right kind is kept; otherwise a decay timer gets a random delay drawn from
/// the generator, and a spread timer the full interval.
pub open spec fn restarted(before: GrassSystem, after: GrassSystem, world: World, p: IVec3) -> bool {
    let old_timer = before.timer_of(p);
    let new_timer = after.timer_of(p);
    &&& must_decay_spec(world, p) && before.runs(p, TimerKind::Decay) ==> new_timer == old_timer
        && after.random_view() == before.random_view()
    &&& must_decay_spec(world, p) && !before.runs(p, TimerKind::Decay) ==> new_timer->0.deadline
        == Some(decay_deadline(before.elapsed_view(), decay_seconds(before.random_view())))
        && after.random_view() == xorshift(before.random_view())
    &&& !must_decay_spec(world, p) && has_spread_target_spec(world, p) && before.runs(
        p,
        TimerKind::Spread,
    ) ==> new_timer == old_timer
    &&& !must_decay_spec(world, p) && has_spread_target_spec(world, p) && !before.runs(
        p,
        TimerKind::Spread,
    ) ==> new_timer->0.deadline == Some((before.elapsed_view() + RANDOM_TICK_INTERVAL_NANOS) as u128)
    &&& !must_decay_spec(world, p) ==> after.random_view() == before.random_view()
}

/// Distinct spread directions lead back to distinct blocks.
proof fn lemma_back_steps_distinct(p: IVec3, i: int, k: int)
    requires
        0 <= k < 24,
        0 <= i < 24,
        k != i,
        grass_in_range(p),
    ensures
        back_step(p, k) != back_step(p, i),
{
    law_spread_directions();
    let _ = spread_direction_spec(k);
    let _ = spread_direction_spec(i);
    if k < i {
        assert(spread_direction_spec(k) != spread_direction_spec(i));
    } else {
        assert(spread_direction_spec(i) != spread_direction_spec(k));
    }
}

/// A world state turns into itself.
proof fn lemma_grass_only_turns_refl(w: World)
    requires
        w.wf(),
    ensures
        grass_only_turns(w, w),
{
}

/// Turning grass and dirt twice is turning grass and dirt.
proof fn lemma_grass_only_turns_trans(a: World, b: World, c: World)
    requires
        grass_only_turns(a, b),
        grass_only_turns(b, c),
    ensures
        grass_only_turns(a, c),
{
    assert forall|g: IVec3| #[trigger]
        c.block_at(g) == a.block_at(g) || (a.block_at(g) == BlockId::GRASS && c.block_at(g)
            == BlockId::DIRT) || (a.block_at(g) == BlockId::DIRT && c.block_at(g)
            == BlockId::GRASS) by {
        assert(b.block_at(g) == a.block_at(g) || (a.block_at(g) == BlockId::GRASS && b.block_at(g)
            == BlockId::DIRT) || (a.block_at(g) == BlockId::DIRT && b.block_at(g)
            == BlockId::GRASS));
        assert(c.block_at(g) == b.block_at(g) || (b.block_at(g) == BlockId::GRASS && c.block_at(g)
            == BlockId::DIRT) || (b.block_at(g) == BlockId::DIRT && c.block_at(g)
            == BlockId::GRASS));
    }
    assert forall|g: IVec3| #[trigger] c.skylight_at(g) == a.skylight_at(g) by {
        assert(b.skylight_at(g) == a.skylight_at(g));
        assert(c.skylight_at(g) == b.skylight_at(g));
    }
}

/// Every decay delay lies between the shortest and the longest decay delay.
pub proof fn law_decay_delay_range(random: u64)
    ensures
        MIN_DECAY_SECONDS <= decay_seconds(random) <= MAX_DECAY_SECONDS,
{
}

/// A timer runs with the given kind.
pub open spec fn timer_runs(timer: Option<GrassTimer>, kind: TimerKind) -> bool {
    &&& timer is Some
    &&& timer->0.deadline is Some
    &&& timer->0.kind == Some(kind)
}

/// How a refresh at time `elapsed` treats the timer of grass at `p`: a timer
/// already running with the kind the block needs is kept; otherwise a decay
/// gets a deadline between the shortest and the longest decay delay ahead,
/// and a spread a deadline the full interval ahead.
pub open spec fn kept_or_restarted(
    before: Option<GrassTimer>,
    after: Option<GrassTimer>,
    elapsed: u128,
    world: World,
    p: IVec3,
) -> bool {
    grass_in_range(p) && world.block_at(p) == BlockId::GRASS ==> {
        &&& must_decay_spec(world, p) && timer_runs(before, TimerKind::Decay) ==> after == before
        &&& must_decay_spec(world, p) && !timer_runs(before, TimerKind::Decay) ==> {
            &&& after is Some
            &&& after->0.deadline is Some
            &&& elapsed + MIN_DECAY_SECONDS * NANOS_PER_SECOND <= after->0.deadline->0
            &&& after->0.deadline->0 <= elapsed + MAX_DECAY_SECONDS * NANOS_PER_SECOND
        }
        &&& !must_decay_spec(world, p) && has_spread_target_spec(world, p) && timer_runs(
            before,
            TimerKind::Spread,
        ) ==> after == before
        &&& !must_decay_spec(world, p) && has_spread_target_spec(world, p) && !timer_runs(
            before,
            TimerKind::Spread,
        ) ==> after is Some && after->0.deadline == Some(
            (elapsed + RANDOM_TICK_INTERVAL_NANOS) as u128,
        )
    }
}

/// A timer that runs no kind: absent, or watched without a deadline or kind.
pub open spec fn idle_timer(timer: Option<GrassTimer>) -> bool {
    !timer_runs(timer, TimerKind::Decay) && !timer_runs(timer, TimerKind::Spread)
}

/// A refresh of a timer that ran no kind restarts it as a refresh of no timer would.
proof fn lemma_idle_restart(
    before: Option<GrassTimer>,
    after: Option<GrassTimer>,
    elapsed: u128,
    world: World,
    p: IVec3,
)
    requires
        idle_timer(before),
        kept_or_restarted(before, after, elapsed, world, p),
    ensures
        kept_or_restarted(None, after, elapsed, world, p),
{
}

/// Binding the key of `p` to a timer changes the timer of `p` alone.
proof fn lemma_timer_insert(a: GrassSystem, b: GrassSystem, p: IVec3, t: GrassTimer)
    requires
        b.timers_view() == a.timers_view().insert(pos_key(p), t),
    ensures
        b.timer_of(p) == Some(t),
        forall|q: IVec3| q != p ==> #[trigger] b.timer_of(q) == a.timer_of(q),
{
}

/// Removing the key of `p` forgets the timer of `p` alone.
proof fn lemma_timer_remove(a: GrassSystem, b: GrassSystem, p: IVec3)
    requires
        b.timers_view() == a.timers_view().remove(pos_key(p)),
    ensures
        b.timer_of(p) is None,
        forall|q: IVec3| q != p ==> #[trigger] b.timer_of(q) == a.timer_of(q),
{
}

impl Default for GrassSystem {
    /// A system that watches nothing, with an unseeded generator.
    fn default() -> (r: GrassSystem)
        ensures
            r.wf(),
            r.timers_view().is_empty(),
            r.index_view().is_empty(),
            r.scheduled_view().len() == 0,
            r.elapsed_view() == 0,
            r.token_view() == 0,
            r.random_view() == 0,
    {
        GrassSystem::seeded(0)
    }
}

} // verus!
