use vstd::prelude::*;

use std::collections::VecDeque;

use rustc_hash::FxHashSet;

use crate::chunk::{air_blocks, dark_skylight, Chunk};
use crate::collections::{set_contains, set_insert, set_keys, set_len, set_new, set_remove};
use crate::generator::WorldGenerator;
use crate::geometry::{pos_key, position_key, IVec3};
use crate::streaming::{RenderDistance, StreamingUpdate};
use crate::world::{chunk_pos_in_range, World};

verus! {

broadcast use crate::geometry::lemma_pos_key_injective;

/// Squared distance between two chunk positions.
pub open spec fn distance_squared(position: IVec3, center: IVec3) -> int {
    let dx = position.x - center.x;
    let dy = position.y - center.y;
    let dz = position.z - center.z;
    dx * dx + dy * dy + dz * dz
}

/// A chunk the streamer keeps around `center`: inside the sphere of the
/// render distance and inside the generated world.
pub open spec fn is_desired_spec(
    position: IVec3,
    center: IVec3,
    radius: int,
    generator: WorldGenerator,
) -> bool {
    distance_squared(position, center) <= radius * radius && generator.spec_contains_chunk(position)
}

/// Every chunk within `radius` of `center`, along each axis, is in range,
/// and squared distances inside that box fit 32 bits.
pub open spec fn streaming_in_range(center: IVec3, radius: int) -> bool {
    &&& 1 <= radius
    &&& 3 * radius * radius <= i32::MAX
    &&& chunk_pos_in_range(IVec3 { x: (center.x - radius) as i32, y: (center.y - radius) as i32, z: (center.z - radius) as i32 })
    &&& chunk_pos_in_range(IVec3 { x: (center.x + radius) as i32, y: (center.y + radius) as i32, z: (center.z + radius) as i32 })
    &&& i32::MIN <= center.x - radius
    &&& center.x + radius <= i32::MAX
    &&& i32::MIN <= center.y - radius
    &&& center.y + radius <= i32::MAX
    &&& i32::MIN <= center.z - radius
    &&& center.z + radius <= i32::MAX
}

/// The positions among the first `n` of a list at squared distance `d`, in list order.
pub open spec fn at_distance(positions: Seq<IVec3>, center: IVec3, d: int, n: int) -> Seq<IVec3>
    decreases n,
{
    if n <= 0 {
        Seq::empty()
    } else {
        let earlier = at_distance(positions, center, d, n - 1);
        if distance_squared(positions[n - 1], center) == d {
            earlier.push(positions[n - 1])
        } else {
            earlier
        }
    }
}

/// The positions of a list at squared distance below `d`, nearest first and
/// in list order among equally distant ones.
pub open spec fn by_distance(positions: Seq<IVec3>, center: IVec3, d: int) -> Seq<IVec3>
    decreases d,
{
    if d <= 0 {
        Seq::empty()
    } else {
        by_distance(positions, center, d - 1) + at_distance(positions, center, d - 1, positions.len() as int)
    }
}

/// Squared distances are never negative.
pub proof fn lemma_distance_nonnegative(position: IVec3, center: IVec3)
    ensures
        0 <= distance_squared(position, center),
{
    let dx = position.x - center.x;
    let dy = position.y - center.y;
    let dz = position.z - center.z;
    assert(0 <= dx * dx && 0 <= dy * dy && 0 <= dz * dz) by (nonlinear_arith);
}

/// The positions among the first `n` at distance `d` are those of the list
/// prefix at that distance, each once when the list repeats none.
pub proof fn lemma_at_distance(positions: Seq<IVec3>, center: IVec3, d: int, n: int)
    requires
        0 <= n <= positions.len(),
    ensures
        forall|p: IVec3|
            #[trigger] at_distance(positions, center, d, n).contains(p) <==> (
            positions.take(n).contains(p) && distance_squared(p, center) == d),
        positions.no_duplicates() ==> at_distance(positions, center, d, n).no_duplicates(),
    decreases n,
{
    if n > 0 {
        lemma_at_distance(positions, center, d, n - 1);
        let earlier = at_distance(positions, center, d, n - 1);
        let last = positions[n - 1];
        assert(positions.take(n) =~= positions.take(n - 1).push(last));
        assert forall|p: IVec3|
            #[trigger] at_distance(positions, center, d, n).contains(p) <==> (
            positions.take(n).contains(p) && distance_squared(p, center) == d) by {
            vstd::seq_lib::lemma_seq_contains_after_push(positions.take(n - 1), last, p);
            if distance_squared(last, center) == d {
                vstd::seq_lib::lemma_seq_contains_after_push(earlier, last, p);
            }
        }
        if positions.no_duplicates() && distance_squared(last, center) == d {
            assert(!positions.take(n - 1).contains(last)) by {
                if positions.take(n - 1).contains(last) {
                    let i = choose|i: int| 0 <= i < n - 1 && #[trigger] positions.take(n - 1)[i] == last;
                    assert(positions[i] == positions[n - 1]);
                }
            }
            assert(!earlier.contains(last));
            assert(earlier.push(last).no_duplicates()) by {
                assert forall|i: int, j: int|
                    0 <= i < j < earlier.push(last).len() implies earlier.push(last)[i] != earlier.push(last)[j] by {
                    if j == earlier.len() {
                        assert(earlier.contains(earlier[i]));
                    }
                }
            }
        }
    }
}

/// The positions ordered below distance `d` are those of the list at a
/// smaller distance, each once when the list repeats none, nearest first.
pub proof fn lemma_by_distance(positions: Seq<IVec3>, center: IVec3, d: int)
    ensures
        forall|p: IVec3|
            #[trigger] by_distance(positions, center, d).contains(p) <==> (positions.contains(p)
                && 0 <= distance_squared(p, center) < d),
        positions.no_duplicates() ==> by_distance(positions, center, d).no_duplicates(),
        forall|i: int, j: int|
            0 <= i <= j < by_distance(positions, center, d).len() ==> distance_squared(
                #[trigger] by_distance(positions, center, d)[i],
                center,
            ) <= distance_squared(#[trigger] by_distance(positions, center, d)[j], center),
    decreases d,
{
    assert forall|p: IVec3| 0 <= distance_squared(p, center) by {
        let dx = p.x - center.x;
        let dy = p.y - center.y;
        let dz = p.z - center.z;
        assert(0 <= dx * dx && 0 <= dy * dy && 0 <= dz * dz) by (nonlinear_arith);
    }
    if d > 0 {
        lemma_by_distance(positions, center, d - 1);
        let n = positions.len() as int;
        lemma_at_distance(positions, center, d - 1, n);
        assert(positions.take(n) =~= positions);
        let earlier = by_distance(positions, center, d - 1);
        let level = at_distance(positions, center, d - 1, n);
        let all = by_distance(positions, center, d);
        assert(all == earlier + level);
        assert forall|p: IVec3| #[trigger] all.contains(p) <==> (positions.contains(p)
            && 0 <= distance_squared(p, center) < d) by {
            if all.contains(p) {
                let t = choose|t: int| 0 <= t < all.len() && all[t] == p;
                if t < earlier.len() {
                    assert(earlier.contains(earlier[t]));
                } else {
                    assert(level.contains(level[t - earlier.len()]));
                }
            }
            if positions.contains(p) && 0 <= distance_squared(p, center) < d {
                if distance_squared(p, center) < d - 1 {
                    assert(earlier.contains(p));
                    let t = choose|t: int| 0 <= t < earlier.len() && earlier[t] == p;
                    assert(all[t] == p);
                } else {
                    assert(level.contains(p));
                    let t = choose|t: int| 0 <= t < level.len() && level[t] == p;
                    assert(all[earlier.len() + t] == p);
                }
            }
        }
        assert forall|i: int| 0 <= i < earlier.len() implies distance_squared(#[trigger] earlier[i], center) < d - 1 by {
            assert(earlier.contains(earlier[i]));
        }
        assert forall|i: int| 0 <= i < level.len() implies distance_squared(#[trigger] level[i], center) == d - 1 by {
            assert(level.contains(level[i]));
        }
        assert forall|i: int, j: int|
            0 <= i <= j < all.len() implies distance_squared(#[trigger] all[i], center)
                <= distance_squared(#[trigger] all[j], center) by {
            if j < earlier.len() {
                assert(all[i] == earlier[i] && all[j] == earlier[j]);
            } else if i < earlier.len() {
                assert(all[i] == earlier[i] && all[j] == level[j - earlier.len()]);
            } else {
                assert(all[i] == level[i - earlier.len()] && all[j] == level[j - earlier.len()]);
            }
        }
        if positions.no_duplicates() {
            assert forall|i: int, j: int| 0 <= i < j < all.len() implies all[i] != all[j] by {
                if j < earlier.len() {
                    assert(all[i] == earlier[i] && all[j] == earlier[j]);
                } else if i < earlier.len() {
                    assert(all[i] == earlier[i] && all[j] == level[j - earlier.len()]);
                } else {
                    assert(all[i] == level[i - earlier.len()] && all[j] == level[j - earlier.len()]);
                }
            }
        }
    }
}

/// Squared distance of chunk positions whose offsets fit 32 bits.
fn chunk_distance_squared(position: IVec3, center: IVec3) -> (r: i64)
    requires
        -0x4000_0000 <= position.x - center.x <= 0x4000_0000,
        -0x4000_0000 <= position.y - center.y <= 0x4000_0000,
        -0x4000_0000 <= position.z - center.z <= 0x4000_0000,
    ensures
        r == distance_squared(position, center),
{
    let dx = position.x as i64 - center.x as i64;
    let dy = position.y as i64 - center.y as i64;
    let dz = position.z as i64 - center.z as i64;
    assert(0 <= dx * dx <= 0x1000_0000_0000_0000) by (nonlinear_arith)
        requires
            -0x4000_0000 <= dx <= 0x4000_0000,
    ;
    assert(0 <= dy * dy <= 0x1000_0000_0000_0000) by (nonlinear_arith)
        requires
            -0x4000_0000 <= dy <= 0x4000_0000,
    ;
    assert(0 <= dz * dz <= 0x1000_0000_0000_0000) by (nonlinear_arith)
        requires
            -0x4000_0000 <= dz <= 0x4000_0000,
    ;
    dx * dx + dy * dy + dz * dz
}

/// Chunk positions near a center: every offset is within the radius.
pub open spec fn near(position: IVec3, center: IVec3, radius: int) -> bool {
    &&& center.x - radius <= position.x <= center.x + radius
    &&& center.y - radius <= position.y <= center.y + radius
    &&& center.z - radius <= position.z <= center.z + radius
}

/// Chunks inside the sphere lie in the box of the radius around its center.
proof fn lemma_desired_near(position: IVec3, center: IVec3, radius: int)
    requires
        radius >= 0,
        distance_squared(position, center) <= radius * radius,
    ensures
        near(position, center, radius),
{
    let dx = position.x - center.x;
    let dy = position.y - center.y;
    let dz = position.z - center.z;
    assert(dx * dx <= radius * radius && dy * dy <= radius * radius && dz * dz <= radius * radius)
        by (nonlinear_arith)
        requires
            dx * dx + dy * dy + dz * dz <= radius * radius,
    ;
    assert(-radius <= dx <= radius) by (nonlinear_arith)
        requires
            dx * dx <= radius * radius,
            radius >= 0,
    ;
    assert(-radius <= dy <= radius) by (nonlinear_arith)
        requires
            dy * dy <= radius * radius,
            radius >= 0,
    ;
    assert(-radius <= dz <= radius) by (nonlinear_arith)
        requires
            dz * dz <= radius * radius,
            radius >= 0,
    ;
}

/// Scan order of the desired-chunk search: layers by y, rows by z, then x.
pub open spec fn scanned_before(p: IVec3, y: int, z: int, x: int) -> bool {
    p.y < y || (p.y == y && (p.z < z || (p.z == z && p.x < x)))
}

/// The chunks inside the render distance of `center` that the generated
/// world contains, each once.
pub fn desired_chunks(center: IVec3, render_distance: RenderDistance, generator: WorldGenerator) -> (r: Vec<IVec3>)
    requires
        streaming_in_range(center, render_distance.spec_chunks() as int),
    ensures
        r@.no_duplicates(),
        forall|p: IVec3|
            #[trigger] r@.contains(p) <==> is_desired_spec(
                p,
                center,
                render_distance.spec_chunks() as int,
                generator,
            ),
        forall|i: int| 0 <= i < r@.len() ==> near(#[trigger] r@[i], center, render_distance.spec_chunks() as int),
{
    let radius = render_distance.chunks() as i32;
    let ghost rad = radius as int;
    assert(0 <= radius * radius <= i32::MAX) by (nonlinear_arith)
        requires
            1 <= radius,
            3 * radius * radius <= i32::MAX,
    ;
    let limit: i64 = radius as i64 * radius as i64;
    proof {
        assert forall|p: IVec3| #[trigger] is_desired_spec(p, center, rad, generator) implies near(p, center, rad) by {
            lemma_desired_near(p, center, rad);
        }
    }
    let mut desired: Vec<IVec3> = Vec::new();
    let mut y = center.y - radius;
    while y <= center.y + radius
        invariant
            rad == radius,
            rad == render_distance.spec_chunks(),
            limit == rad * rad,
            streaming_in_range(center, rad),
            center.y - radius <= y <= center.y + radius + 1,
            forall|p: IVec3| #[trigger] is_desired_spec(p, center, rad, generator) ==> near(p, center, rad),
            desired@.no_duplicates(),
            forall|i: int| 0 <= i < desired@.len() ==> near(#[trigger] desired@[i], center, rad),
            forall|p: IVec3| #[trigger] desired@.contains(p) <==> (is_desired_spec(p, center, rad, generator)
                && p.y < y),
        decreases center.y + radius + 1 - y,
    {
        let mut z = center.z - radius;
        while z <= center.z + radius
            invariant
                rad == radius,
                rad == render_distance.spec_chunks(),
                limit == rad * rad,
                streaming_in_range(center, rad),
                center.y - radius <= y <= center.y + radius,
                center.z - radius <= z <= center.z + radius + 1,
                forall|p: IVec3| #[trigger] is_desired_spec(p, center, rad, generator) ==> near(p, center, rad),
                desired@.no_duplicates(),
                forall|i: int| 0 <= i < desired@.len() ==> near(#[trigger] desired@[i], center, rad),
                forall|p: IVec3| #[trigger] desired@.contains(p) <==> (is_desired_spec(p, center, rad, generator)
                    && scanned_before(p, y as int, z as int, i32::MIN as int)),
            decreases center.z + radius + 1 - z,
        {
            let mut x = center.x - radius;
            while x <= center.x + radius
                invariant
                    rad == radius,
                    rad == render_distance.spec_chunks(),
                    limit == rad * rad,
                    streaming_in_range(center, rad),
                    center.y - radius <= y <= center.y + radius,
                    center.z - radius <= z <= center.z + radius,
                    center.x - radius <= x <= center.x + radius + 1,
                    forall|p: IVec3| #[trigger] is_desired_spec(p, center, rad, generator) ==> near(p, center, rad),
                    desired@.no_duplicates(),
                    forall|i: int| 0 <= i < desired@.len() ==> near(#[trigger] desired@[i], center, rad),
                    forall|p: IVec3| #[trigger] desired@.contains(p) <==> (is_desired_spec(p, center, rad, generator)
                        && scanned_before(p, y as int, z as int, x as int)),
                decreases center.x + radius + 1 - x,
            {
                let position = IVec3 { x, y, z };
                if chunk_distance_squared(position, center) <= limit && generator.contains_chunk(position) {
                    proof {
                        assert(!desired@.contains(position));
                        assert(is_desired_spec(position, center, rad, generator));
                    }
                    let ghost before = desired@;
                    desired.push(position);
                    proof {
                        assert(desired@ == before.push(position));
                        assert forall|p: IVec3| #[trigger] desired@.contains(p) <==> (is_desired_spec(p, center, rad, generator)
                            && scanned_before(p, y as int, z as int, x + 1)) by {
                            vstd::seq_lib::lemma_seq_contains_after_push(before, position, p);
                            if p.x == x && p.y == y && p.z == z {
                                assert(p == position);
                            }
                        }
                        assert(desired@.no_duplicates()) by {
                            assert forall|i: int, j: int| 0 <= i < j < desired@.len() implies desired@[i] != desired@[j] by {
                                if j == desired@.len() - 1 {
                                    assert(before.contains(before[i]));
                                } else {
                                    assert(desired@[i] == before[i] && desired@[j] == before[j]);
                                }
                            }
                        }
                    }
                } else {
                    proof {
                        assert forall|p: IVec3| #[trigger] desired@.contains(p) <==> (is_desired_spec(p, center, rad, generator)
                            && scanned_before(p, y as int, z as int, x + 1)) by {
                            if p.x == x && p.y == y && p.z == z {
                                assert(p == position);
                                assert(!is_desired_spec(p, center, rad, generator));
                            }
                        }
                    }
                }
                x = x + 1;
            }
            proof {
                assert forall|p: IVec3| #[trigger] desired@.contains(p) <==> (is_desired_spec(p, center, rad, generator)
                    && scanned_before(p, y as int, z + 1, i32::MIN as int)) by {
                    if is_desired_spec(p, center, rad, generator) && p.y == y && p.z == z {
                        assert(near(p, center, rad));
                    }
                }
            }
            z = z + 1;
        }
        proof {
            assert forall|p: IVec3| #[trigger] desired@.contains(p) <==> (is_desired_spec(p, center, rad, generator)
                && p.y < y + 1) by {
                if is_desired_spec(p, center, rad, generator) && p.y == y {
                    assert(near(p, center, rad));
                }
            }
        }
        y = y + 1;
    }
    proof {
        assert forall|p: IVec3| #[trigger] desired@.contains(p) <==> is_desired_spec(p, center, rad, generator) by {
            if is_desired_spec(p, center, rad, generator) {
                assert(near(p, center, rad));
            }
        }
    }
    desired
}

/// Orders positions near a center by squared distance, keeping list order
/// among equally distant positions.
pub fn order_by_distance(positions: &Vec<IVec3>, center: IVec3, radius: i32) -> (r: Vec<IVec3>)
    requires
        streaming_in_range(center, radius as int),
        forall|i: int| 0 <= i < positions@.len() ==> near(#[trigger] positions@[i], center, radius as int),
    ensures
        r@ == by_distance(positions@, center, radius * radius + 1),
{
    assert(0 <= radius * radius <= i32::MAX) by (nonlinear_arith)
        requires
            1 <= radius,
            3 * radius * radius <= i32::MAX,
    ;
    let limit: i64 = radius as i64 * radius as i64;
    let mut ordered: Vec<IVec3> = Vec::new();
    let mut d: i64 = 0;
    while d <= limit
        invariant
            0 <= d <= limit + 1,
            limit == radius * radius,
            limit <= i32::MAX,
            streaming_in_range(center, radius as int),
            forall|i: int| 0 <= i < positions@.len() ==> near(#[trigger] positions@[i], center, radius as int),
            ordered@ == by_distance(positions@, center, d as int),
        decreases limit + 1 - d,
    {
        let mut j: usize = 0;
        while j < positions.len()
            invariant
                0 <= d <= limit,
                limit == radius * radius,
                j <= positions@.len(),
                streaming_in_range(center, radius as int),
                forall|i: int| 0 <= i < positions@.len() ==> near(#[trigger] positions@[i], center, radius as int),
                ordered@ == by_distance(positions@, center, d as int) + at_distance(positions@, center, d as int, j as int),
            decreases positions@.len() - j,
        {
            let position = positions[j];
            assert(near(positions@[j as int], center, radius as int));
            if chunk_distance_squared(position, center) == d {
                ordered.push(position);
            }
            proof {
                assert(by_distance(positions@, center, d as int) + at_distance(positions@, center, d as int, j as int + 1)
                    =~= ordered@);
            }
            j = j + 1;
        }
        d = d + 1;
    }
    ordered
}

/// A chunk the streamer wants around an optional center: none before the
/// first center is set.
pub open spec fn wanted(
    position: IVec3,
    center: Option<IVec3>,
    render_distance: RenderDistance,
    generator: WorldGenerator,
) -> bool {
    match center {
        Some(center) => is_desired_spec(position, center, render_distance.spec_chunks() as int, generator),
        None => false,
    }
}

/// Whether the generation results for a chunk should be kept.
fn is_desired(
    position: IVec3,
    center: Option<IVec3>,
    render_distance: RenderDistance,
    generator: WorldGenerator,
) -> (r: bool)
    requires
        chunk_pos_in_range(position),
        center matches Some(c) ==> streaming_in_range(c, render_distance.spec_chunks() as int),
    ensures
        r == wanted(position, center, render_distance, generator),
{
    match center {
        Some(center) => {
            let radius = render_distance.chunks() as i64;
            assert(0 <= radius * radius <= i32::MAX) by (nonlinear_arith)
                requires
                    1 <= radius,
                    3 * radius * radius <= i32::MAX,
            ;
            chunk_distance_squared(position, center) <= radius * radius && generator.contains_chunk(
                position,
            )
        },
        None => false,
    }
}

/// Generation threads for a machine: a second one where at least eight
/// hardware threads are available.
pub open spec fn generation_threads_for(available: usize) -> usize {
    if available >= 8 {
        2
    } else {
        1
    }
}

/// Loading ready chunks within a budget: each ready chunk is taken in turn;
/// it is loaded when still wanted and not loaded yet. Returns the loaded
/// positions and how many ready chunks were taken.
pub open spec fn loading(
    ready: Seq<(IVec3, Chunk)>,
    loaded: Set<u128>,
    center: Option<IVec3>,
    render_distance: RenderDistance,
    generator: WorldGenerator,
    budget: int,
) -> (Seq<IVec3>, int)
    decreases ready.len(),
{
    if budget <= 0 || ready.len() == 0 {
        (Seq::empty(), 0)
    } else {
        let position = ready[0].0;
        if wanted(position, center, render_distance, generator) && !loaded.contains(pos_key(position)) {
            let rest = loading(
                ready.drop_first(),
                loaded.insert(pos_key(position)),
                center,
                render_distance,
                generator,
                budget - 1,
            );
            (seq![position] + rest.0, rest.1 + 1)
        } else {
            let rest = loading(ready.drop_first(), loaded, center, render_distance, generator, budget);
            (rest.0, rest.1 + 1)
        }
    }
}

/// The generated chunks that loading within a budget inserts, aligned with
/// the positions `loading` gives.
pub open spec fn loading_chunks(
    ready: Seq<(IVec3, Chunk)>,
    loaded: Set<u128>,
    center: Option<IVec3>,
    render_distance: RenderDistance,
    generator: WorldGenerator,
    budget: int,
) -> Seq<Chunk>
    decreases ready.len(),
{
    if budget <= 0 || ready.len() == 0 {
        Seq::empty()
    } else {
        let position = ready[0].0;
        if wanted(position, center, render_distance, generator) && !loaded.contains(pos_key(position)) {
            seq![ready[0].1] + loading_chunks(
                ready.drop_first(),
                loaded.insert(pos_key(position)),
                center,
                render_distance,
                generator,
                budget - 1,
            )
        } else {
            loading_chunks(ready.drop_first(), loaded, center, render_distance, generator, budget)
        }
    }
}

/// Taking waiting chunks for generation within a budget: each waiting chunk
/// is taken in turn and kept when not loaded, not known empty and not being
/// generated. Returns the kept positions and how many were taken.
pub open spec fn taking(
    pending: Seq<IVec3>,
    loaded: Set<u128>,
    known_empty: Set<u128>,
    in_flight: Set<u128>,
    budget: int,
) -> (Seq<IVec3>, int)
    decreases pending.len(),
{
    if budget <= 0 || pending.len() == 0 {
        (Seq::empty(), 0)
    } else {
        let key = pos_key(pending[0]);
        if !loaded.contains(key) && !known_empty.contains(key) && !in_flight.contains(key) {
            let rest = taking(pending.drop_first(), loaded, known_empty, in_flight, budget - 1);
            (seq![pending[0]] + rest.0, rest.1 + 1)
        } else {
            let rest = taking(pending.drop_first(), loaded, known_empty, in_flight, budget);
            (rest.0, rest.1 + 1)
        }
    }
}

/// Scheduling background generation: while fewer than `maximum` chunks are
/// being generated or wait to be loaded, the next waiting chunk is taken and
/// dispatched unless it is loaded, known empty or already being generated.
/// Returns the dispatched positions and how many waiting chunks were taken.
pub open spec fn scheduling(
    pending: Seq<IVec3>,
    loaded: Set<u128>,
    known_empty: Set<u128>,
    in_flight: Set<u128>,
    ready: int,
    maximum: int,
) -> (Seq<IVec3>, int)
    decreases pending.len(),
{
    if pending.len() == 0 || in_flight.len() + ready >= maximum {
        (Seq::empty(), 0)
    } else {
        let key = pos_key(pending[0]);
        if loaded.contains(key) || known_empty.contains(key) || in_flight.contains(key) {
            let rest = scheduling(pending.drop_first(), loaded, known_empty, in_flight, ready, maximum);
            (rest.0, rest.1 + 1)
        } else {
            let rest = scheduling(
                pending.drop_first(),
                loaded,
                known_empty,
                in_flight.insert(key),
                ready,
                maximum,
            );
            (seq![pending[0]] + rest.0, rest.1 + 1)
        }
    }
}

/// Keys of the chunks the streamer keeps around `center`.
pub open spec fn desired_keys(center: IVec3, radius: int, generator: WorldGenerator) -> Set<u128> {
    Set::new(|k: u128| exists|p: IVec3| #[trigger] is_desired_spec(p, center, radius, generator) && pos_key(p) == k)
}

/// The keys of a list of positions, as a set.
fn key_set(positions: &Vec<IVec3>) -> (r: FxHashSet<u128>)
    ensures
        r@ == crate::world::position_keys(positions@),
        r@.finite(),
{
    let mut keys = set_new();
    let mut i: usize = 0;
    proof {
        assert(crate::world::position_keys(positions@.take(0)) =~= Set::empty());
    }
    while i < positions.len()
        invariant
            i <= positions@.len(),
            keys@ == crate::world::position_keys(positions@.take(i as int)),
            keys@.finite(),
        decreases positions@.len() - i,
    {
        proof {
            assert(positions@.take(i as int + 1) == positions@.take(i as int).push(positions@[i as int]));
            crate::world::lemma_position_keys_push(positions@.take(i as int), positions@[i as int]);
        }
        set_insert(&mut keys, position_key(positions[i]));
        i = i + 1;
    }
    proof {
        assert(positions@.take(positions@.len() as int) =~= positions@);
    }
    keys
}

/// The loaded chunks whose keys are not in `keep`, each once.
fn chunks_outside(world: &World, keep: &FxHashSet<u128>) -> (r: Vec<IVec3>)
    requires
        world.wf(),
    ensures
        forall|p: IVec3| #[trigger] r@.contains(p) <==> (world.chunk_at(p) is Some && !keep@.contains(pos_key(p))),
        forall|i: int| 0 <= i < r@.len() ==> chunk_pos_in_range(#[trigger] r@[i]),
{
    let loaded = world.chunk_positions();
    let mut outside: Vec<IVec3> = Vec::new();
    let mut i: usize = 0;
    while i < loaded.len()
        invariant
            world.wf(),
            i <= loaded@.len(),
            forall|p: IVec3| world.chunk_at(p) is Some <==> #[trigger] loaded@.contains(p),
            forall|p: IVec3| #[trigger] outside@.contains(p) <==> (loaded@.take(i as int).contains(p) && !keep@.contains(pos_key(p))),
            forall|j: int| 0 <= j < outside@.len() ==> chunk_pos_in_range(#[trigger] outside@[j]),
        decreases loaded@.len() - i,
    {
        let position = loaded[i];
        let ghost before = outside@;
        proof {
            assert(loaded@.contains(position));
            crate::geometry::lemma_pos_key(position);
            assert(world.chunks_view().contains_key(pos_key(position)));
        }
        if !set_contains(keep, position_key(position)) {
            outside.push(position);
        }
        proof {
            assert(loaded@.take(i as int + 1) =~= loaded@.take(i as int).push(position));
            assert forall|p: IVec3| #[trigger] outside@.contains(p) <==> (loaded@.take(i as int + 1).contains(p) && !keep@.contains(pos_key(p))) by {
                vstd::seq_lib::lemma_seq_contains_after_push(loaded@.take(i as int), position, p);
                vstd::seq_lib::lemma_seq_contains_after_push(before, position, p);
            }
        }
        i = i + 1;
    }
    proof {
        assert(loaded@.take(loaded@.len() as int) =~= loaded@);
    }
    outside
}

/// Keeps the chunks around a moving center loaded: it schedules the missing
/// ones nearest first, takes generated chunks back in bounded batches, and
/// remembers chunks that generated empty.
pub struct ChunkStreamer {
    render_distance: RenderDistance,
    center: Option<IVec3>,
    pending_loads: VecDeque<IVec3>,
    in_flight: FxHashSet<u128>,
    ready_chunks: VecDeque<(IVec3, Chunk)>,
    known_empty: FxHashSet<u128>,
    generation_threads: usize,
}

impl ChunkStreamer {
    pub closed spec fn render_distance_view(self) -> RenderDistance {
        self.render_distance
    }

    pub closed spec fn center_view(self) -> Option<IVec3> {
        self.center
    }

    /// Chunks waiting to be generated, in order.
    pub closed spec fn pending_view(self) -> Seq<IVec3> {
        self.pending_loads@
    }

    /// Keys of the chunks being generated.
    pub closed spec fn in_flight_view(self) -> Set<u128> {
        self.in_flight@
    }

    /// Generated chunks waiting to be loaded, in order.
    pub closed spec fn ready_view(self) -> Seq<(IVec3, Chunk)> {
        self.ready_chunks@
    }

    /// Keys of the chunks known to generate empty.
    pub closed spec fn known_empty_view(self) -> Set<u128> {
        self.known_empty@
    }

    pub closed spec fn threads_view(self) -> usize {
        self.generation_threads
    }

    /// The center's neighbourhood is in range, queued chunks are well formed
    /// and in range, and the key sets are finite.
    pub open spec fn wf(self) -> bool {
        &&& self.center_view() matches Some(c) ==> streaming_in_range(
            c,
            self.render_distance_view().spec_chunks() as int,
        )
        &&& forall|i: int|
            0 <= i < self.pending_view().len() ==> chunk_pos_in_range(#[trigger] self.pending_view()[i])
        &&& forall|i: int|
            0 <= i < self.ready_view().len() ==> (#[trigger] self.ready_view()[i]).1.wf()
                && chunk_pos_in_range(self.ready_view()[i].0)
        &&& self.in_flight_view().finite()
        &&& self.known_empty_view().finite()
        &&& 1 <= self.threads_view() <= 2
    }

    /// A streamer without a center, with one generation thread, or two where
    /// at least eight hardware threads are `available`.
    pub fn new(render_distance: RenderDistance, available: usize) -> (r: ChunkStreamer)
        ensures
            r.wf(),
            r.render_distance_view() == render_distance,
            r.center_view() is None,
            r.pending_view().len() == 0,
            r.in_flight_view().is_empty(),
            r.ready_view().len() == 0,
            r.known_empty_view().is_empty(),
            r.threads_view() == generation_threads_for(available),
    {
        let generation_threads = if available >= 8 {
            2
        } else {
            1
        };
        ChunkStreamer {
            render_distance,
            center: None,
            pending_loads: VecDeque::new(),
            in_flight: set_new(),
            ready_chunks: VecDeque::new(),
            known_empty: set_new(),
            generation_threads,
        }
    }

    /// Chunks waiting, being generated or generated and not yet loaded.
    pub fn pending_count(&self) -> (r: usize)
        requires
            self.pending_view().len() + self.in_flight_view().len() + self.ready_view().len()
                <= usize::MAX,
        ensures
            r == self.pending_view().len() + self.in_flight_view().len() + self.ready_view().len(),
    {
        self.pending_loads.len() + set_len(&self.in_flight) + self.ready_chunks.len()
    }

    /// Number of chunks known to generate empty.
    pub fn known_empty_count(&self) -> (r: usize)
        ensures
            r == self.known_empty_view().len(),
    {
        set_len(&self.known_empty)
    }

    pub fn render_distance(&self) -> (r: RenderDistance)
        ensures
            r == self.render_distance_view(),
    {
        self.render_distance
    }

    /// Changes the render distance; a new distance forgets the center so
    /// that the next center update rebuilds the desired chunks.
    pub fn set_render_distance(&mut self, render_distance: RenderDistance)
        requires
            old(self).wf(),
        ensures
            final(self).wf(),
            final(self).render_distance_view() == render_distance,
            old(self).render_distance_view() == render_distance ==> *final(self) == *old(self),
            old(self).render_distance_view() != render_distance ==> final(self).center_view() is None
                && final(self).pending_view() == old(self).pending_view()
                && final(self).in_flight_view() == old(self).in_flight_view()
                && final(self).ready_view() == old(self).ready_view()
                && final(self).known_empty_view() == old(self).known_empty_view(),
    {
        if self.render_distance == render_distance {
            return;
        }
        self.render_distance = render_distance;
        self.center = None;
        assert(self.pending_view() == old(self).pending_view());
        assert(self.ready_view() == old(self).ready_view());
    }

    /// How many background threads generate chunks.
    pub fn generation_threads(&self) -> (r: usize)
        ensures
            r == self.threads_view(),
    {
        self.generation_threads
    }

    /// Takes the result of a background generation: the chunk is no longer
    /// being generated; a result for a chunk no longer wanted is dropped; a
    /// chunk waits to be loaded; an empty result waits as an empty chunk where
    /// edits are recorded and is otherwise remembered as empty.
    pub fn receive_generated(
        &mut self,
        world: &World,
        generator: WorldGenerator,
        position: IVec3,
        chunk: Option<Chunk>,
    )
        requires
            old(self).wf(),
            chunk_pos_in_range(position),
            chunk matches Some(c) ==> c.wf(),
        ensures
            final(self).wf(),
            final(self).center_view() == old(self).center_view(),
            final(self).render_distance_view() == old(self).render_distance_view(),
            final(self).pending_view() == old(self).pending_view(),
            final(self).in_flight_view() == old(self).in_flight_view().remove(pos_key(position)),
            !wanted(position, old(self).center_view(), old(self).render_distance_view(), generator)
                ==> final(self).ready_view() == old(self).ready_view()
                && final(self).known_empty_view() == old(self).known_empty_view(),
            wanted(position, old(self).center_view(), old(self).render_distance_view(), generator)
                ==> match chunk {
                Some(c) => final(self).ready_view() == old(self).ready_view().push((position, c))
                    && final(self).known_empty_view() == old(self).known_empty_view(),
                None => if !world.chunk_edits(position).is_empty() {
                    &&& final(self).ready_view().len() == old(self).ready_view().len() + 1
                    &&& final(self).ready_view().drop_last() == old(self).ready_view()
                    &&& final(self).ready_view().last().0 == position
                    &&& forall|i: int|
                        0 <= i < 4096 ==> #[trigger] final(self).ready_view().last().1.blocks_view()[i]
                            == crate::blocks::BlockId::AIR
                    &&& final(self).known_empty_view() == old(self).known_empty_view()
                } else {
                    &&& final(self).ready_view() == old(self).ready_view()
                    &&& final(self).known_empty_view() == old(self).known_empty_view().insert(
                        pos_key(position),
                    )
                },
            },
    {
        set_remove(&mut self.in_flight, position_key(position));
        proof {
            if !world.edits_view().contains_key(pos_key(position)) {
                assert(world.chunk_edits(position).dom() =~= Set::empty());
            }
        }
        if !is_desired(position, self.center, self.render_distance, generator) {
            assert(self.pending_view() == old(self).pending_view());
            assert(self.ready_view() == old(self).ready_view());
            return;
        }
        match chunk {
            Some(chunk) => {
                self.ready_chunks.push_back((position, chunk));
            },
            None => {
                if world.has_chunk_edits(position) {
                    self.ready_chunks.push_back((position, Chunk::empty()));
                    assert(self.ready_view().drop_last() =~= old(self).ready_view());
                } else {
                    set_insert(&mut self.known_empty, position_key(position));
                }
            },
        }
        proof {
            assert(self.pending_view() == old(self).pending_view());
            assert forall|i: int| 0 <= i < self.ready_view().len() implies (#[trigger] self.ready_view()[i]).1.wf()
                && chunk_pos_in_range(self.ready_view()[i].0) by {
                if i < old(self).ready_view().len() {
                    assert(self.ready_view()[i] == old(self).ready_view()[i]);
                }
            }
        }
    }

    /// Loads ready chunks, at most `budget` of them, in order: a chunk still
    /// wanted and not loaded yet is loaded, any other is dropped. Returns how
    /// many were loaded.
    #[verifier::rlimit(60)]
    pub fn load_ready(&mut self, world: &mut World, generator: WorldGenerator, budget: usize) -> (r: usize)
        requires
            old(self).wf(),
            old(world).wf(),
        ensures
            final(self).wf(),
            final(world).wf(),
            ({
                let plan = loading(
                    old(self).ready_view(),
                    old(world).chunks_view().dom(),
                    old(self).center_view(),
                    old(self).render_distance_view(),
                    generator,
                    budget as int,
                );
                &&& r == plan.0.len()
                &&& 0 <= plan.1 <= old(self).ready_view().len()
                &&& final(self).ready_view() == old(self).ready_view().skip(plan.1)
                &&& final(world).chunks_view().dom() == old(world).chunks_view().dom().union(
                    crate::world::position_keys(plan.0),
                )
                &&& forall|i: int|
                    0 <= i < plan.0.len() ==> {
                        let chunks = loading_chunks(
                            old(self).ready_view(),
                            old(world).chunks_view().dom(),
                            old(self).center_view(),
                            old(self).render_distance_view(),
                            generator,
                            budget as int,
                        );
                        &&& (#[trigger] final(world).chunks_view()[pos_key(plan.0[i])]).blocks_view()
                            == crate::world::overlay_edits(chunks[i].blocks_view(), old(world).chunk_edits(plan.0[i]))
                        &&& final(world).chunks_view()[pos_key(plan.0[i])].skylight_view()
                            == chunks[i].skylight_view()
                    }
            }),
            forall|k: u128|
                #![trigger final(world).chunks_view()[k]]
                old(world).chunks_view().contains_key(k) ==> {
                    &&& final(world).chunks_view()[k].blocks_view() == old(
                        world,
                    ).chunks_view()[k].blocks_view()
                    &&& final(world).chunks_view()[k].skylight_view() == old(
                        world,
                    ).chunks_view()[k].skylight_view()
                },
            final(world).edits_view() == old(world).edits_view(),
            final(self).center_view() == old(self).center_view(),
            final(self).pending_view() == old(self).pending_view(),
            final(self).in_flight_view() == old(self).in_flight_view(),
            final(self).known_empty_view() == old(self).known_empty_view(),
    {
        let ghost center = self.center;
        let ghost render_distance = self.render_distance;
        let ghost plan = loading(
            old(self).ready_view(),
            old(world).chunks_view().dom(),
            center,
            render_distance,
            generator,
            budget as int,
        );
        let ghost plan_chunks = loading_chunks(
            old(self).ready_view(),
            old(world).chunks_view().dom(),
            center,
            render_distance,
            generator,
            budget as int,
        );
        let ghost inserted: Seq<IVec3> = Seq::empty();
        let ghost inserted_chunks: Seq<Chunk> = Seq::empty();
        let ghost taken: int = 0;
        let mut loaded: usize = 0;
        proof {
            assert(old(self).ready_view().skip(0) =~= old(self).ready_view());
            assert(crate::world::position_keys(inserted) =~= Set::empty());
            assert(world.chunks_view().dom() =~= old(world).chunks_view().dom().union(Set::empty()));
        }
        while loaded < budget && self.ready_chunks.len() > 0
            invariant
                self.wf(),
                world.wf(),
                self.center == center,
                self.render_distance == render_distance,
                self.pending_view() == old(self).pending_view(),
                self.in_flight_view() == old(self).in_flight_view(),
                self.known_empty_view() == old(self).known_empty_view(),
                world.edits_view() == old(world).edits_view(),
                loaded <= budget,
                loaded == inserted.len(),
                0 <= taken <= old(self).ready_view().len(),
                self.ready_view() == old(self).ready_view().skip(taken),
                world.chunks_view().dom() == old(world).chunks_view().dom().union(
                    crate::world::position_keys(inserted),
                ),
                plan == (
                    inserted + loading(
                        self.ready_view(),
                        world.chunks_view().dom(),
                        center,
                        render_distance,
                        generator,
                        budget - loaded,
                    ).0,
                    taken + loading(
                        self.ready_view(),
                        world.chunks_view().dom(),
                        center,
                        render_distance,
                        generator,
                        budget - loaded,
                    ).1,
                ),
                plan_chunks == inserted_chunks + loading_chunks(
                    self.ready_view(),
                    world.chunks_view().dom(),
                    center,
                    render_distance,
                    generator,
                    budget - loaded,
                ),
                inserted_chunks.len() == inserted.len(),
                forall|i: int|
                    0 <= i < inserted.len() ==> {
                        &&& (#[trigger] world.chunks_view()[pos_key(inserted[i])]).blocks_view()
                            == crate::world::overlay_edits(
                            inserted_chunks[i].blocks_view(),
                            old(world).chunk_edits(inserted[i]),
                        )
                        &&& world.chunks_view()[pos_key(inserted[i])].skylight_view()
                            == inserted_chunks[i].skylight_view()
                    },
                forall|k: u128|
                    #![trigger world.chunks_view()[k]]
                    old(world).chunks_view().contains_key(k) ==> {
                        &&& world.chunks_view()[k].blocks_view() == old(
                            world,
                        ).chunks_view()[k].blocks_view()
                        &&& world.chunks_view()[k].skylight_view() == old(
                            world,
                        ).chunks_view()[k].skylight_view()
                    },
            decreases self.ready_view().len(),
        {
            let ghost before_ready = self.ready_view();
            let ghost before_dom = world.chunks_view().dom();
            assert(self.ready_view()[0].1.wf() && chunk_pos_in_range(self.ready_view()[0].0));
            let (position, chunk) = match self.ready_chunks.pop_front() {
                Some(entry) => entry,
                None => {
                    return loaded;
                },
            };
            assert(self.ready_view() =~= before_ready.drop_first());
            let ghost rest_budget = budget - loaded;
            if is_desired(position, self.center, self.render_distance, generator) && world.chunk(
                position,
            ).is_none() {
                let ghost world_before = *world;
                let ghost given = chunk;
                world.insert_chunk(position, chunk);
                proof {
                    let before_inserted = inserted;
                    let before_chunks = inserted_chunks;
                    assert forall|i: int| 0 <= i < before_inserted.len() implies {
                        &&& (#[trigger] world.chunks_view()[pos_key(before_inserted[i])]).blocks_view()
                            == crate::world::overlay_edits(
                            before_chunks[i].blocks_view(),
                            old(world).chunk_edits(before_inserted[i]),
                        )
                        &&& world.chunks_view()[pos_key(before_inserted[i])].skylight_view()
                            == before_chunks[i].skylight_view()
                    } by {
                        assert(crate::world::position_keys(before_inserted).contains(pos_key(before_inserted[i])));
                        assert(world_before.chunks_view().contains_key(pos_key(before_inserted[i])));
                    }
                    assert forall|k: u128| #![trigger world.chunks_view()[k]]
                        old(world).chunks_view().contains_key(k) implies {
                        &&& world.chunks_view()[k].blocks_view() == old(
                            world,
                        ).chunks_view()[k].blocks_view()
                        &&& world.chunks_view()[k].skylight_view() == old(
                            world,
                        ).chunks_view()[k].skylight_view()
                    } by {
                        assert(world_before.chunks_view().contains_key(k));
                    }
                    inserted_chunks = inserted_chunks.push(given);
                    inserted = inserted + seq![position];
                    assert(inserted == before_inserted.push(position));
                    crate::world::lemma_position_keys_push(before_inserted, position);
                    assert(world.chunks_view().dom() =~= old(world).chunks_view().dom().union(
                        crate::world::position_keys(inserted),
                    ));
                }
                loaded = loaded + 1;
            }
            proof {
                taken = taken + 1;
                assert(self.ready_view() =~= old(self).ready_view().skip(taken));
                assert forall|i: int| 0 <= i < self.ready_view().len() implies (#[trigger] self.ready_view()[i]).1.wf()
                    && chunk_pos_in_range(self.ready_view()[i].0) by {
                    assert(self.ready_view()[i] == before_ready[i + 1]);
                }
            }
        }
        loaded
    }

    /// Takes waiting chunks to generate right away, at most `budget` of them,
    /// in order, skipping chunks that are loaded, known empty or being
    /// generated.
    #[verifier::rlimit(40)]
    pub fn take_pending_positions(&mut self, world: &World, budget: usize) -> (r: Vec<IVec3>)
        requires
            old(self).wf(),
        ensures
            final(self).wf(),
            ({
                let plan = taking(
                    old(self).pending_view(),
                    world.chunks_view().dom(),
                    old(self).known_empty_view(),
                    old(self).in_flight_view(),
                    budget as int,
                );
                &&& r@ == plan.0
                &&& 0 <= plan.1 <= old(self).pending_view().len()
                &&& final(self).pending_view() == old(self).pending_view().skip(plan.1)
            }),
            forall|i: int| 0 <= i < r@.len() ==> chunk_pos_in_range(#[trigger] r@[i]),
            final(self).center_view() == old(self).center_view(),
            final(self).render_distance_view() == old(self).render_distance_view(),
            final(self).ready_view() == old(self).ready_view(),
            final(self).in_flight_view() == old(self).in_flight_view(),
            final(self).known_empty_view() == old(self).known_empty_view(),
    {
        let ghost loaded = world.chunks_view().dom();
        let ghost plan = taking(
            old(self).pending_view(),
            loaded,
            old(self).known_empty_view(),
            old(self).in_flight_view(),
            budget as int,
        );
        let ghost taken: int = 0;
        let mut positions: Vec<IVec3> = Vec::new();
        proof {
            assert(old(self).pending_view().skip(0) =~= old(self).pending_view());
        }
        while positions.len() < budget && self.pending_loads.len() > 0
            invariant
                self.wf(),
                self.center == old(self).center,
                self.render_distance == old(self).render_distance,
                self.ready_view() == old(self).ready_view(),
                self.in_flight_view() == old(self).in_flight_view(),
                self.known_empty_view() == old(self).known_empty_view(),
                loaded == world.chunks_view().dom(),
                positions@.len() <= budget,
                0 <= taken <= old(self).pending_view().len(),
                self.pending_view() == old(self).pending_view().skip(taken),
                forall|i: int| 0 <= i < positions@.len() ==> chunk_pos_in_range(#[trigger] positions@[i]),
                plan == (
                    positions@ + taking(
                        self.pending_view(),
                        loaded,
                        self.known_empty_view(),
                        self.in_flight_view(),
                        budget - positions@.len(),
                    ).0,
                    taken + taking(
                        self.pending_view(),
                        loaded,
                        self.known_empty_view(),
                        self.in_flight_view(),
                        budget - positions@.len(),
                    ).1,
                ),
            decreases self.pending_view().len(),
        {
            let ghost before = self.pending_view();
            let ghost before_positions = positions@;
            assert(chunk_pos_in_range(before[0]));
            let position = match self.pending_loads.pop_front() {
                Some(position) => position,
                None => {
                    return positions;
                },
            };
            assert(self.pending_view() =~= before.drop_first());
            let key = position_key(position);
            if world.chunk(position).is_none() && !set_contains(&self.known_empty, key)
                && !set_contains(&self.in_flight, key) {
                positions.push(position);
                proof {
                    assert(positions@ == before_positions + seq![position]);
                }
            }
            proof {
                taken = taken + 1;
                assert(self.pending_view() =~= old(self).pending_view().skip(taken));
                assert forall|i: int| 0 <= i < self.pending_view().len() implies chunk_pos_in_range(
                    #[trigger] self.pending_view()[i],
                ) by {
                    assert(self.pending_view()[i] == before[i + 1]);
                }
            }
        }
        positions
    }

    /// Picks the waiting chunks to hand to the generation threads: while
    /// fewer than twice the thread count are being generated or wait to be
    /// loaded, the next waiting chunk is taken and, unless it is loaded,
    /// known empty or already being generated, marked as being generated
    /// and returned.
    #[verifier::rlimit(40)]
    pub fn next_generation_jobs(&mut self, world: &World) -> (r: Vec<IVec3>)
        requires
            old(self).wf(),
        ensures
            final(self).wf(),
            ({
                let plan = scheduling(
                    old(self).pending_view(),
                    world.chunks_view().dom(),
                    old(self).known_empty_view(),
                    old(self).in_flight_view(),
                    old(self).ready_view().len() as int,
                    2 * old(self).threads_view(),
                );
                &&& r@ == plan.0
                &&& 0 <= plan.1 <= old(self).pending_view().len()
                &&& final(self).pending_view() == old(self).pending_view().skip(plan.1)
                &&& final(self).in_flight_view() == old(self).in_flight_view().union(
                    crate::world::position_keys(plan.0),
                )
            }),
            forall|i: int| 0 <= i < r@.len() ==> chunk_pos_in_range(#[trigger] r@[i]),
            final(self).center_view() == old(self).center_view(),
            final(self).render_distance_view() == old(self).render_distance_view(),
            final(self).ready_view() == old(self).ready_view(),
            final(self).known_empty_view() == old(self).known_empty_view(),
    {
        let ghost loaded = world.chunks_view().dom();
        let maximum = self.generation_threads * 2;
        let ghost plan = scheduling(
            old(self).pending_view(),
            loaded,
            old(self).known_empty_view(),
            old(self).in_flight_view(),
            old(self).ready_view().len() as int,
            maximum as int,
        );
        let ghost taken: int = 0;
        let mut jobs: Vec<IVec3> = Vec::new();
        proof {
            assert(old(self).pending_view().skip(0) =~= old(self).pending_view());
            assert(crate::world::position_keys(jobs@) =~= Set::empty());
            assert(self.in_flight_view() =~= old(self).in_flight_view().union(Set::empty()));
        }
        while self.pending_loads.len() > 0 && set_len(&self.in_flight) < maximum
            && self.ready_chunks.len() < maximum - set_len(&self.in_flight)
            invariant
                self.wf(),
                maximum == 2 * self.threads_view(),
                self.threads_view() == old(self).threads_view(),
                self.center == old(self).center,
                self.render_distance == old(self).render_distance,
                self.ready_view() == old(self).ready_view(),
                self.known_empty_view() == old(self).known_empty_view(),
                loaded == world.chunks_view().dom(),
                0 <= taken <= old(self).pending_view().len(),
                self.pending_view() == old(self).pending_view().skip(taken),
                self.in_flight_view() == old(self).in_flight_view().union(
                    crate::world::position_keys(jobs@),
                ),
                forall|i: int| 0 <= i < jobs@.len() ==> chunk_pos_in_range(#[trigger] jobs@[i]),
                plan == (
                    jobs@ + scheduling(
                        self.pending_view(),
                        loaded,
                        self.known_empty_view(),
                        self.in_flight_view(),
                        self.ready_view().len() as int,
                        maximum as int,
                    ).0,
                    taken + scheduling(
                        self.pending_view(),
                        loaded,
                        self.known_empty_view(),
                        self.in_flight_view(),
                        self.ready_view().len() as int,
                        maximum as int,
                    ).1,
                ),
            decreases self.pending_view().len(),
        {
            let ghost before = self.pending_view();
            let ghost before_jobs = jobs@;
            let ghost before_flight = self.in_flight_view();
            assert(chunk_pos_in_range(before[0]));
            let position = match self.pending_loads.pop_front() {
                Some(position) => position,
                None => {
                    return jobs;
                },
            };
            assert(self.pending_view() =~= before.drop_first());
            let key = position_key(position);
            let fresh = world.chunk(position).is_none() && !set_contains(&self.known_empty, key);
            if fresh && set_insert(&mut self.in_flight, key) {
                jobs.push(position);
                proof {
                    assert(jobs@ == before_jobs.push(position));
                    crate::world::lemma_position_keys_push(before_jobs, position);
                    assert(self.in_flight_view() =~= old(self).in_flight_view().union(
                        crate::world::position_keys(jobs@),
                    ));
                    assert(jobs@ == before_jobs + seq![position]);
                }
            } else {
                proof {
                    assert(self.in_flight_view() =~= before_flight);
                }
            }
            proof {
                taken = taken + 1;
                assert(self.pending_view() =~= old(self).pending_view().skip(taken));
                assert forall|i: int| 0 <= i < self.pending_view().len() implies chunk_pos_in_range(
                    #[trigger] self.pending_view()[i],
                ) by {
                    assert(self.pending_view()[i] == before[i + 1]);
                }
            }
        }
        jobs
    }

    /// Whether a generated chunk waits to be loaded at `position`.
    fn ready_holds(&self, position: IVec3) -> (r: bool)
        ensures
            r == exists|i: int| 0 <= i < self.ready_view().len() && (#[trigger] self.ready_view()[i]).0 == position,
    {
        let mut i: usize = 0;
        while i < self.ready_chunks.len()
            invariant
                i <= self.ready_view().len(),
                forall|j: int| 0 <= j < i ==> (#[trigger] self.ready_view()[j]).0 != position,
            decreases self.ready_view().len() - i,
        {
            if self.ready_chunks[i].0 == position {
                assert(self.ready_view()[i as int].0 == position);
                return true;
            }
            i = i + 1;
        }
        false
    }

    /// Forgets the chunks known to generate empty whose keys are not in `keep`.
    fn forget_empty_outside(&mut self, keep: &FxHashSet<u128>)
        requires
            old(self).wf(),
        ensures
            final(self).wf(),
            final(self).known_empty_view() == old(self).known_empty_view().intersect(keep@),
            final(self).center_view() == old(self).center_view(),
            final(self).render_distance_view() == old(self).render_distance_view(),
            final(self).pending_view() == old(self).pending_view(),
            final(self).in_flight_view() == old(self).in_flight_view(),
            final(self).ready_view() == old(self).ready_view(),
    {
        let keys = set_keys(&self.known_empty);
        let mut i: usize = 0;
        while i < keys.len()
            invariant
                self.wf(),
                i <= keys@.len(),
                keys@.no_duplicates(),
                forall|k: u128| old(self).known_empty_view().contains(k) <==> #[trigger] keys@.contains(k),
                forall|k: u128| #[trigger] self.known_empty_view().contains(k) <==> (old(self).known_empty_view().contains(k)
                    && (!keys@.take(i as int).contains(k) || keep@.contains(k))),
                self.center == old(self).center,
                self.render_distance == old(self).render_distance,
                self.pending_view() == old(self).pending_view(),
                self.in_flight_view() == old(self).in_flight_view(),
                self.ready_view() == old(self).ready_view(),
            decreases keys@.len() - i,
        {
            let key = keys[i];
            if !set_contains(keep, key) {
                set_remove(&mut self.known_empty, key);
            }
            proof {
                assert(keys@.take(i as int + 1) =~= keys@.take(i as int).push(key));
                assert forall|k: u128| #[trigger] self.known_empty_view().contains(k) <==> (old(self).known_empty_view().contains(k)
                    && (!keys@.take(i as int + 1).contains(k) || keep@.contains(k))) by {
                    vstd::seq_lib::lemma_seq_contains_after_push(keys@.take(i as int), key, k);
                }
            }
            i = i + 1;
        }
        proof {
            assert(keys@.take(keys@.len() as int) =~= keys@);
            assert(self.known_empty_view() =~= old(self).known_empty_view().intersect(keep@));
        }
    }

    /// The desired chunks, in list order, that are not loaded, not known
    /// empty, not being generated and not waiting to be loaded.
    fn missing_chunks(&self, world: &World, desired: &Vec<IVec3>) -> (r: Vec<IVec3>)
        requires
            desired@.no_duplicates(),
        ensures
            r@.no_duplicates(),
            forall|p: IVec3| #[trigger] r@.contains(p) <==> (desired@.contains(p)
                && world.chunk_at(p) is None && !self.known_empty_view().contains(pos_key(p))
                && !self.in_flight_view().contains(pos_key(p)) && !(exists|i: int|
                0 <= i < self.ready_view().len() && (#[trigger] self.ready_view()[i]).0 == p)),
            forall|i: int| 0 <= i < r@.len() ==> desired@.contains(#[trigger] r@[i]),
    {
        let mut missing: Vec<IVec3> = Vec::new();
        let mut i: usize = 0;
        while i < desired.len()
            invariant
                i <= desired@.len(),
                desired@.no_duplicates(),
                missing@.no_duplicates(),
                forall|p: IVec3| #[trigger] missing@.contains(p) <==> (desired@.take(i as int).contains(p)
                    && world.chunk_at(p) is None && !self.known_empty_view().contains(pos_key(p))
                    && !self.in_flight_view().contains(pos_key(p)) && !(exists|j: int|
                    0 <= j < self.ready_view().len() && (#[trigger] self.ready_view()[j]).0 == p)),
                forall|j: int| 0 <= j < missing@.len() ==> desired@.contains(#[trigger] missing@[j]),
            decreases desired@.len() - i,
        {
            let position = desired[i];
            let key = position_key(position);
            let ghost before = missing@;
            proof {
                assert(!desired@.take(i as int).contains(position)) by {
                    if desired@.take(i as int).contains(position) {
                        let j = choose|j: int| 0 <= j < i && #[trigger] desired@.take(i as int)[j] == position;
                        assert(desired@[j] == desired@[i as int]);
                    }
                }
            }
            if world.chunk(position).is_none() && !set_contains(&self.known_empty, key)
                && !set_contains(&self.in_flight, key) && !self.ready_holds(position) {
                missing.push(position);
                proof {
                    assert(!before.contains(position));
                    assert(missing@.no_duplicates()) by {
                        assert forall|a: int, b: int| 0 <= a < b < missing@.len() implies missing@[a] != missing@[b] by {
                            if b == before.len() {
                                assert(before.contains(before[a]));
                            } else {
                                assert(missing@[a] == before[a] && missing@[b] == before[b]);
                            }
                        }
                    }
                    assert(desired@.contains(desired@[i as int]));
                }
            }
            proof {
                assert(desired@.take(i as int + 1) =~= desired@.take(i as int).push(position));
                assert forall|p: IVec3| #[trigger] missing@.contains(p) <==> (desired@.take(i as int + 1).contains(p)
                    && world.chunk_at(p) is None && !self.known_empty_view().contains(pos_key(p))
                    && !self.in_flight_view().contains(pos_key(p)) && !(exists|j: int|
                    0 <= j < self.ready_view().len() && (#[trigger] self.ready_view()[j]).0 == p)) by {
                    vstd::seq_lib::lemma_seq_contains_after_push(desired@.take(i as int), position, p);
                    vstd::seq_lib::lemma_seq_contains_after_push(before, position, p);
                }
            }
            i = i + 1;
        }
        proof {
            assert(desired@.take(desired@.len() as int) =~= desired@);
        }
        missing
    }

    /// Moves the streaming center. While the center stays nothing changes.
    /// Otherwise the loaded chunks outside the new render sphere are
    /// unloaded, the chunks known to generate empty outside it are
    /// forgotten, and the chunks inside it that are not loaded, not known
    /// empty, not being generated and not waiting to be loaded become the
    /// waiting chunks, nearest first.
    #[verifier::rlimit(80)]
    pub fn update_center(&mut self, center: IVec3, world: &mut World, generator: WorldGenerator) -> (r:
        StreamingUpdate)
        requires
            old(self).wf(),
            old(world).wf(),
            streaming_in_range(center, old(self).render_distance_view().spec_chunks() as int),
        ensures
            final(self).wf(),
            final(world).wf(),
            old(self).center_view() == Some(center) ==> {
                &&& r.spec_scheduled() == 0
                &&& r.spec_loaded() == 0
                &&& r.spec_unloaded() == 0
                &&& *final(self) == *old(self)
                &&& *final(world) == *old(world)
            },
            old(self).center_view() != Some(center) ==> {
                let radius = old(self).render_distance_view().spec_chunks() as int;
                let keep = desired_keys(center, radius, generator);
                let pending = final(self).pending_view();
                &&& final(self).center_view() == Some(center)
                &&& final(self).render_distance_view() == old(self).render_distance_view()
                &&& final(world).chunks_view().dom() == old(world).chunks_view().dom().intersect(keep)
                &&& forall|k: u128|
                    #![trigger final(world).chunks_view()[k]]
                    final(world).chunks_view().contains_key(k) ==> final(world).chunks_view()[k].blocks_view()
                        == old(world).chunks_view()[k].blocks_view()
                &&& final(world).edits_view() == old(world).edits_view()
                &&& final(self).known_empty_view() == old(self).known_empty_view().intersect(keep)
                &&& final(self).in_flight_view() == old(self).in_flight_view()
                &&& final(self).ready_view() == old(self).ready_view()
                &&& pending.no_duplicates()
                &&& forall|p: IVec3| #[trigger] pending.contains(p) <==> (is_desired_spec(
                    p,
                    center,
                    radius,
                    generator,
                ) && final(world).chunk_at(p) is None && !final(self).known_empty_view().contains(
                    pos_key(p),
                ) && !final(self).in_flight_view().contains(pos_key(p)) && !(exists|i: int|
                    0 <= i < final(self).ready_view().len() && (#[trigger] final(self).ready_view()[i]).0 == p))
                &&& forall|i: int, j: int|
                    0 <= i <= j < pending.len() ==> distance_squared(#[trigger] pending[i], center)
                        <= distance_squared(#[trigger] pending[j], center)
                &&& r.spec_scheduled() == pending.len()
                &&& r.spec_loaded() == 0
                &&& r.spec_unloaded() == old(world).chunks_view().dom().len() - final(world).chunks_view().dom().len()
            },
    {
        if self.center == Some(center) {
            return StreamingUpdate::default();
        }
        let ghost radius = self.render_distance.spec_chunks() as int;
        let ghost keep_set = desired_keys(center, radius, generator);
        let desired = desired_chunks(center, self.render_distance, generator);
        let keep = key_set(&desired);
        proof {
            assert forall|k: u128| #[trigger] keep@.contains(k) <==> keep_set.contains(k) by {
                if keep@.contains(k) {
                    let i = choose|i: int| 0 <= i < desired@.len() && pos_key(desired@[i]) == k;
                    assert(desired@.contains(desired@[i]));
                    assert(is_desired_spec(desired@[i], center, radius, generator));
                }
                if keep_set.contains(k) {
                    let p = choose|p: IVec3| #[trigger] is_desired_spec(p, center, radius, generator) && pos_key(p) == k;
                    assert(desired@.contains(p));
                    let i = choose|i: int| 0 <= i < desired@.len() && desired@[i] == p;
                    assert(pos_key(desired@[i]) == k);
                }
            }
            assert(keep@ =~= keep_set);
        }
        self.forget_empty_outside(&keep);
        let obsolete = chunks_outside(world, &keep);
        let ghost world_before = *world;
        let unloaded = world.remove_chunks(&obsolete);
        proof {
            assert(world.chunks_view().dom() =~= world_before.chunks_view().dom().intersect(keep_set)) by {
                assert forall|k: u128| #[trigger] world.chunks_view().dom().contains(k) <==> world_before.chunks_view().dom().intersect(keep_set).contains(k) by {
                    if world_before.chunks_view().contains_key(k) {
                        crate::geometry::lemma_key_pos(k);
                        let p = crate::geometry::key_pos(k);
                        if !keep_set.contains(k) {
                            assert(obsolete@.contains(p));
                            let i = choose|i: int| 0 <= i < obsolete@.len() && obsolete@[i] == p;
                            assert(crate::world::position_keys(obsolete@).contains(k));
                        } else {
                            assert(!crate::world::position_keys(obsolete@).contains(k)) by {
                                if crate::world::position_keys(obsolete@).contains(k) {
                                    let i = choose|i: int| 0 <= i < obsolete@.len() && pos_key(obsolete@[i]) == k;
                                    assert(obsolete@.contains(obsolete@[i]));
                                }
                            }
                        }
                    }
                }
            }
        }
        let missing = self.missing_chunks(world, &desired);
        let radius_chunks = self.render_distance.chunks() as i32;
        proof {
            assert(radius <= 0x7FFF_FFFF) by (nonlinear_arith)
                requires
                    1 <= radius,
                    3 * radius * radius <= i32::MAX,
            ;
            assert(radius_chunks as int == radius);
            assert forall|i: int| 0 <= i < missing@.len() implies near(#[trigger] missing@[i], center, radius_chunks as int) by {
                assert(desired@.contains(missing@[i]));
                let j = choose|j: int| 0 <= j < desired@.len() && desired@[j] == missing@[i];
                assert(near(desired@[j], center, radius));
            }
        }
        let ordered = order_by_distance(&missing, center, radius_chunks);
        proof {
            assert(ordered@ == by_distance(missing@, center, radius * radius + 1));
            lemma_by_distance(missing@, center, radius * radius + 1);
        }
        let mut pending: VecDeque<IVec3> = VecDeque::new();
        let mut i: usize = 0;
        while i < ordered.len()
            invariant
                i <= ordered@.len(),
                pending@ == ordered@.take(i as int),
            decreases ordered@.len() - i,
        {
            pending.push_back(ordered[i]);
            proof {
                assert(ordered@.take(i as int + 1) =~= ordered@.take(i as int).push(ordered@[i as int]));
            }
            i = i + 1;
        }
        proof {
            assert(ordered@.take(ordered@.len() as int) =~= ordered@);
            assert forall|j: int| 0 <= j < ordered@.len() implies chunk_pos_in_range(#[trigger] ordered@[j]) by {
                assert(ordered@.contains(ordered@[j]));
                assert(missing@.contains(ordered@[j]));
                assert(desired@.contains(ordered@[j]));
                let k = choose|k: int| 0 <= k < desired@.len() && desired@[k] == ordered@[j];
                assert(near(desired@[k], center, radius));
            }
            assert forall|p: IVec3| #[trigger] desired@.contains(p) implies is_desired_spec(p, center, radius, generator) by {}
        }
        let ghost before_assign = *self;
        self.pending_loads = pending;
        self.center = Some(center);
        proof {
            assert(self.pending_view() == ordered@);
            assert(self.ready_view() == before_assign.ready_view());
            assert(self.known_empty_view() == before_assign.known_empty_view());
            assert(self.in_flight_view() == before_assign.in_flight_view());
            assert forall|p: IVec3| #[trigger] self.pending_view().contains(p) <==> (is_desired_spec(
                p,
                center,
                radius,
                generator,
            ) && world.chunk_at(p) is None && !self.known_empty_view().contains(pos_key(p))
                && !self.in_flight_view().contains(pos_key(p)) && !(exists|i: int|
                0 <= i < self.ready_view().len() && (#[trigger] self.ready_view()[i]).0 == p)) by {
                if is_desired_spec(p, center, radius, generator) {
                    assert(desired@.contains(p));
                }
                if is_desired_spec(p, center, radius, generator) && world.chunk_at(p) is None
                    && !self.known_empty_view().contains(pos_key(p)) && !self.in_flight_view().contains(pos_key(p))
                    && !(exists|i: int| 0 <= i < self.ready_view().len() && (#[trigger] self.ready_view()[i]).0 == p) {
                    assert(desired@.contains(p));
                    assert(missing@.contains(p));
                    lemma_distance_nonnegative(p, center);
                    assert(by_distance(missing@, center, radius * radius + 1).contains(p));
                }
                if self.pending_view().contains(p) {
                    assert(ordered@.contains(p));
                    assert(missing@.contains(p));
                    assert(desired@.contains(p));
                    assert(is_desired_spec(p, center, radius, generator));
                    assert(world.chunk_at(p) is None);
                    assert(!self.known_empty_view().contains(pos_key(p)));
                    assert(!self.in_flight_view().contains(pos_key(p)));
                }
                if missing@.contains(p) {
                    assert(desired@.contains(p));
                }
            }
        }
        StreamingUpdate::scheduled(self.pending_loads.len(), unloaded)
    }

    /// Loads a chunk generated on request: a chunk replaces nothing but its
    /// own position; an empty result still loads an empty chunk where edits
    /// are recorded, and is otherwise remembered as empty. True when a chunk
    /// was loaded.
    pub fn store_generated(&mut self, world: &mut World, position: IVec3, chunk: Option<Chunk>) -> (r: bool)
        requires
            old(self).wf(),
            old(world).wf(),
            chunk_pos_in_range(position),
            chunk matches Some(c) ==> c.wf(),
        ensures
            final(self).wf(),
            final(world).wf(),
            final(self).center_view() == old(self).center_view(),
            final(self).pending_view() == old(self).pending_view(),
            final(self).ready_view() == old(self).ready_view(),
            final(self).in_flight_view() == old(self).in_flight_view(),
            r == (chunk is Some || !old(world).chunk_edits(position).is_empty()),
            r ==> final(world).chunks_view().dom() == old(world).chunks_view().dom().insert(pos_key(position)),
            chunk matches Some(c) ==> final(world).chunks_view()[pos_key(position)].blocks_view()
                == crate::world::overlay_edits(c.blocks_view(), old(world).chunk_edits(position)),
            chunk matches Some(c) ==> final(world).chunks_view()[pos_key(position)].skylight_view()
                == c.skylight_view(),
            chunk is None && r ==> final(world).chunks_view()[pos_key(position)].blocks_view()
                == crate::world::overlay_edits(air_blocks(), old(world).chunk_edits(position)),
            chunk is None && r ==> final(world).chunks_view()[pos_key(position)].skylight_view()
                == dark_skylight(),
            forall|k: u128|
                #![trigger final(world).chunks_view()[k]]
                old(world).chunks_view().contains_key(k) && k != pos_key(position) ==> {
                    &&& final(world).chunks_view()[k].blocks_view() == old(
                        world,
                    ).chunks_view()[k].blocks_view()
                    &&& final(world).chunks_view()[k].skylight_view() == old(
                        world,
                    ).chunks_view()[k].skylight_view()
                },
            !r ==> *final(world) == *old(world),
            r ==> final(self).known_empty_view() == old(self).known_empty_view(),
            !r ==> final(self).known_empty_view() == old(self).known_empty_view().insert(pos_key(position)),
            final(world).edits_view() == old(world).edits_view(),
    {
        let has_edits = world.has_chunk_edits(position);
        proof {
            if !old(world).edits_view().contains_key(pos_key(position)) {
                assert(old(world).chunk_edits(position).dom() =~= Set::empty());
            }
        }
        match chunk {
            Some(chunk) => {
                world.insert_chunk(position, chunk);
                true
            },
            None => {
                if has_edits {
                    let empty = Chunk::empty();
                    assert(empty.blocks_view() =~= air_blocks());
                    assert(empty.skylight_view() =~= dark_skylight());
                    world.insert_chunk(position, empty);
                    true
                } else {
                    set_insert(&mut self.known_empty, position_key(position));
                    assert(self.pending_view() == old(self).pending_view());
                    assert(self.ready_view() == old(self).ready_view());
                    false
                }
            },
        }
    }
}

} // verus!
