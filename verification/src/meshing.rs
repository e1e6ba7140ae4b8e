use vstd::prelude::*;

use crate::blocks::BlockId;
use crate::chunk::{in_chunk, Chunk};
use crate::coordinates::{
    chunk_of, global_fits, global_from_local, global_of, law_split_join_roundtrip, local_of,
    split_global,
};
use crate::geometry::{IVec3, UVec3};
use crate::world::{global_in_range, World};

verus! {

/// A visible face in a slice of a chunk: the block, its texture layer, the
/// skylight reaching the face and whether the block is a liquid.
#[derive(Clone, Copy, Debug, PartialEq, Eq, Structural)]
pub struct MaskEntry {
    pub block: BlockId,
    pub texture_layer: u32,
    pub skylight: u8,
    pub liquid: bool,
}

/// A rectangle of equal faces in a slice: its corner cell, its extent along
/// the slice's two axes and the face it draws.
#[derive(Clone, Copy, Debug, PartialEq, Eq, Structural)]
pub struct MaskQuad {
    pub u: u32,
    pub v: u32,
    pub width: u32,
    pub height: u32,
    pub entry: MaskEntry,
}

/// The mask index of a cell of a slice, rows of 16 cells.
pub open spec fn mask_index(u: int, v: int) -> int {
    v * 16 + u
}

/// The cells of row `v` from column `u` on, `width` of them, all hold `entry`.
pub open spec fn row_matches(
    mask: Seq<Option<MaskEntry>>,
    u: int,
    v: int,
    width: int,
    entry: MaskEntry,
) -> bool {
    forall|k: int| 0 <= k < width ==> #[trigger] mask[mask_index(u + k, v)] == Some(entry)
}

/// Widens a run of `entry` faces along its row, starting from `width` cells.
pub open spec fn run_width(
    mask: Seq<Option<MaskEntry>>,
    u: int,
    v: int,
    entry: MaskEntry,
    width: int,
) -> int
    decreases 16 - width,
{
    if width < 1 || width >= 16 || u + width >= 16 || mask[mask_index(u + width, v)] != Some(entry) {
        width
    } else {
        run_width(mask, u, v, entry, width + 1)
    }
}

/// Extends a run of `width` faces over the following rows, starting from
/// `height` rows.
pub open spec fn run_height(
    mask: Seq<Option<MaskEntry>>,
    u: int,
    v: int,
    width: int,
    entry: MaskEntry,
    height: int,
) -> int
    decreases 16 - height,
{
    if height < 1 || height >= 16 || v + height >= 16 || !row_matches(mask, u, v + height, width, entry) {
        height
    } else {
        run_height(mask, u, v, width, entry, height + 1)
    }
}

/// The mask with a rectangle of cells emptied.
pub open spec fn cleared(
    mask: Seq<Option<MaskEntry>>,
    u: int,
    v: int,
    width: int,
    height: int,
) -> Seq<Option<MaskEntry>> {
    Seq::new(
        mask.len(),
        |i: int|
            if u <= i % 16 < u + width && v <= i / 16 < v + height {
                None
            } else {
                mask[i]
            },
    )
}

/// The quad a face at `(u, v)` grows into: liquid faces stay single cells,
/// other faces widen along their row and then over the following rows while
/// every cell of the wider row matches.
pub open spec fn grown_quad(mask: Seq<Option<MaskEntry>>, u: int, v: int, entry: MaskEntry) -> MaskQuad {
    let width = if entry.liquid {
        1
    } else {
        run_width(mask, u, v, entry, 1)
    };
    let height = if entry.liquid {
        1
    } else {
        run_height(mask, u, v, width, entry, 1)
    };
    MaskQuad { u: u as u32, v: v as u32, width: width as u32, height: height as u32, entry }
}

/// Greedy merging from cell `position` on, row by row: an empty cell is
/// skipped; a face grows into a quad, whose cells are emptied, and the scan
/// continues after the quad's first row.
pub open spec fn greedy_from(mask: Seq<Option<MaskEntry>>, position: int) -> Seq<MaskQuad>
    decreases 256 - position,
{
    if position < 0 || position >= 256 {
        Seq::empty()
    } else {
        let u = position % 16;
        let v = position / 16;
        match mask[position] {
            None => greedy_from(mask, position + 1),
            Some(entry) => {
                let quad = grown_quad(mask, u, v, entry);
                if quad.width < 1 || position + quad.width > 256 {
                    Seq::empty()
                } else {
                    seq![quad] + greedy_from(
                        cleared(mask, u, v, quad.width as int, quad.height as int),
                        position + quad.width,
                    )
                }
            },
        }
    }
}

/// The width of the run of `entry` faces starting at `(u, v)`.
fn measure_width(mask: &Vec<Option<MaskEntry>>, u: usize, v: usize, entry: MaskEntry) -> (r: usize)
    requires
        mask@.len() == 256,
        u < 16,
        v < 16,
        mask@[mask_index(u as int, v as int)] == Some(entry),
    ensures
        r == run_width(mask@, u as int, v as int, entry, 1),
        1 <= r <= 16 - u,
        row_matches(mask@, u as int, v as int, r as int, entry),
{
    let mut width: usize = 1;
    while u + width < 16 && mask[v * 16 + u + width] == Some(entry)
        invariant
            mask@.len() == 256,
            u < 16,
            v < 16,
            1 <= width <= 16 - u,
            run_width(mask@, u as int, v as int, entry, width as int) == run_width(
                mask@,
                u as int,
                v as int,
                entry,
                1,
            ),
            row_matches(mask@, u as int, v as int, width as int, entry),
        decreases 16 - width,
    {
        proof {
            assert forall|k: int| 0 <= k < width + 1 implies #[trigger] mask@[mask_index(
                u + k,
                v as int,
            )] == Some(entry) by {
                if k < width {
                    assert(row_matches(mask@, u as int, v as int, width as int, entry));
                }
            }
        }
        width = width + 1;
    }
    width
}

/// Whether row `row` holds `entry` from column `u` over `width` cells.
fn row_holds(mask: &Vec<Option<MaskEntry>>, u: usize, row: usize, width: usize, entry: MaskEntry) -> (r:
    bool)
    requires
        mask@.len() == 256,
        u + width <= 16,
        row < 16,
    ensures
        r == row_matches(mask@, u as int, row as int, width as int, entry),
{
    let mut k: usize = 0;
    while k < width
        invariant
            mask@.len() == 256,
            u + width <= 16,
            row < 16,
            k <= width,
            row_matches(mask@, u as int, row as int, k as int, entry),
        decreases width - k,
    {
        if mask[row * 16 + u + k] != Some(entry) {
            assert(mask@[mask_index(u + k, row as int)] != Some(entry));
            return false;
        }
        k = k + 1;
    }
    true
}

/// The height of the rectangle of `entry` faces, `width` wide, starting at `(u, v)`.
fn measure_height(mask: &Vec<Option<MaskEntry>>, u: usize, v: usize, width: usize, entry: MaskEntry) -> (r:
    usize)
    requires
        mask@.len() == 256,
        u < 16,
        v < 16,
        1 <= width <= 16 - u,
        row_matches(mask@, u as int, v as int, width as int, entry),
    ensures
        r == run_height(mask@, u as int, v as int, width as int, entry, 1),
        1 <= r <= 16 - v,
        forall|row: int| v <= row < v + r ==> #[trigger] row_matches(mask@, u as int, row, width as int, entry),
{
    let mut height: usize = 1;
    while v + height < 16 && row_holds(mask, u, v + height, width, entry)
        invariant
            mask@.len() == 256,
            u < 16,
            v < 16,
            1 <= width <= 16 - u,
            1 <= height <= 16 - v,
            run_height(mask@, u as int, v as int, width as int, entry, height as int) == run_height(
                mask@,
                u as int,
                v as int,
                width as int,
                entry,
                1,
            ),
            forall|row: int| v <= row < v + height ==> #[trigger] row_matches(mask@, u as int, row, width as int, entry),
        decreases 16 - height,
    {
        height = height + 1;
    }
    height
}

/// Merges the faces of a slice mask into rectangles, row by row: each face
/// not yet covered grows along its row while the same face follows, then over
/// the following rows while the whole width matches; liquid faces stay
/// single cells. The mask is left empty.
pub fn merge_mask(mask: &mut Vec<Option<MaskEntry>>) -> (quads: Vec<MaskQuad>)
    requires
        old(mask)@.len() == 256,
    ensures
        quads@ == greedy_from(old(mask)@, 0),
        final(mask)@.len() == 256,
        forall|i: int| 0 <= i < 256 ==> #[trigger] final(mask)@[i] is None,
{
    let mut quads: Vec<MaskQuad> = Vec::new();
    let ghost initial = mask@;
    let mut v: usize = 0;
    while v < 16
        invariant
            v <= 16,
            mask@.len() == 256,
            quads@ + greedy_from(mask@, (v * 16) as int) == greedy_from(initial, 0),
            forall|i: int| 0 <= i < v * 16 ==> #[trigger] mask@[i] is None,
        decreases 16 - v,
    {
        let mut u: usize = 0;
        while u < 16
            invariant
                v < 16,
                u <= 16,
                mask@.len() == 256,
                quads@ + greedy_from(mask@, (v * 16 + u) as int) == greedy_from(initial, 0),
                forall|i: int| 0 <= i < v * 16 + u ==> #[trigger] mask@[i] is None,
            decreases 16 - u,
        {
            let position = v * 16 + u;
            let ghost before = mask@;
            let ghost before_quads = quads@;
            match mask[position] {
                None => {
                    u = u + 1;
                },
                Some(entry) => {
                    let width = if entry.liquid {
                        1
                    } else {
                        measure_width(mask, u, v, entry)
                    };
                    let height = if entry.liquid {
                        1
                    } else {
                        measure_height(mask, u, v, width, entry)
                    };
                    let mut row: usize = 0;
                    while row < height
                        invariant
                            v < 16,
                            u < 16,
                            1 <= width <= 16 - u,
                            1 <= height <= 16 - v,
                            row <= height,
                            mask@.len() == 256,
                            mask@ == cleared(before, u as int, v as int, width as int, row as int),
                        decreases height - row,
                    {
                        let mut column: usize = 0;
                        while column < width
                            invariant
                                v < 16,
                                u < 16,
                                1 <= width <= 16 - u,
                                1 <= height <= 16 - v,
                                row < height,
                                column <= width,
                                mask@.len() == 256,
                                forall|i: int|
                                    0 <= i < 256 ==> #[trigger] mask@[i] == (if (u <= i % 16 < u
                                        + width && v <= i / 16 < v + row) || (u <= i % 16 < u
                                        + column && i / 16 == v + row) {
                                        None
                                    } else {
                                        before[i]
                                    }),
                            decreases width - column,
                        {
                            let index = (v + row) * 16 + u + column;
                            proof {
                                assert(index % 16 == u + column && index / 16 == v + row) by (nonlinear_arith)
                                    requires
                                        index == (v + row) * 16 + u + column,
                                        u + column < 16,
                                ;
                            }
                            mask.set(index, None);
                            column = column + 1;
                        }
                        proof {
                            assert(mask@ =~= cleared(before, u as int, v as int, width as int, row + 1));
                        }
                        row = row + 1;
                    }
                    let quad = MaskQuad {
                        u: u as u32,
                        v: v as u32,
                        width: width as u32,
                        height: height as u32,
                        entry,
                    };
                    quads.push(quad);
                    proof {
                        assert(position as int % 16 == u && position as int / 16 == v) by (nonlinear_arith)
                            requires
                                position == v * 16 + u,
                                u < 16,
                        ;
                        assert(quad == grown_quad(before, u as int, v as int, entry));
                        assert(quads@ == before_quads + seq![quad]);
                        assert forall|i: int| 0 <= i < v * 16 + u + width implies #[trigger] mask@[i] is None by {
                            if i >= v * 16 + u {
                                assert(i / 16 == v && u <= i % 16 < u + width) by (nonlinear_arith)
                                    requires
                                        v * 16 + u <= i < v * 16 + u + width,
                                        u + width <= 16,
                                ;
                            } else {
                                assert(before[i] is None);
                                assert(!(v <= i / 16 && u <= i % 16 < u + width && i / 16 < v + height)
                                    || before[i] is None);
                            }
                        }
                    }
                    u = u + width;
                },
            }
        }
        v = v + 1;
    }
    quads
}

/// A mask cell lies inside a quad.
pub open spec fn in_quad(quad: MaskQuad, i: int) -> bool {
    &&& quad.u <= i % 16 < quad.u + quad.width
    &&& quad.v <= i / 16 < quad.v + quad.height
}

proof fn lemma_run_width(mask: Seq<Option<MaskEntry>>, u: int, v: int, entry: MaskEntry, width: int)
    requires
        0 <= u < 16,
        1 <= width <= 16 - u,
        row_matches(mask, u, v, width, entry),
    ensures
        width <= run_width(mask, u, v, entry, width) <= 16 - u,
        row_matches(mask, u, v, run_width(mask, u, v, entry, width), entry),
    decreases 16 - width,
{
    if !(width >= 16 || u + width >= 16 || mask[mask_index(u + width, v)] != Some(entry)) {
        assert(row_matches(mask, u, v, width + 1, entry)) by {
            assert forall|k: int| 0 <= k < width + 1 implies #[trigger] mask[mask_index(u + k, v)]
                == Some(entry) by {
                if k < width {
                    assert(mask[mask_index(u + k, v)] == Some(entry));
                }
            }
        }
        lemma_run_width(mask, u, v, entry, width + 1);
    }
}

proof fn lemma_run_height(
    mask: Seq<Option<MaskEntry>>,
    u: int,
    v: int,
    width: int,
    entry: MaskEntry,
    height: int,
)
    requires
        0 <= v < 16,
        1 <= height <= 16 - v,
        forall|row: int| v <= row < v + height ==> #[trigger] row_matches(mask, u, row, width, entry),
    ensures
        height <= run_height(mask, u, v, width, entry, height) <= 16 - v,
        forall|row: int|
            v <= row < v + run_height(mask, u, v, width, entry, height) ==> #[trigger] row_matches(
                mask,
                u,
                row,
                width,
                entry,
            ),
    decreases 16 - height,
{
    if !(height >= 16 || v + height >= 16 || !row_matches(mask, u, v + height, width, entry)) {
        lemma_run_height(mask, u, v, width, entry, height + 1);
    }
}

/// Every cell of a grown quad holds its face.
proof fn lemma_grown_quad(mask: Seq<Option<MaskEntry>>, position: int, entry: MaskEntry)
    requires
        mask.len() == 256,
        0 <= position < 256,
        mask[position] == Some(entry),
    ensures
        ({
            let quad = grown_quad(mask, position % 16, position / 16, entry);
            &&& 1 <= quad.width <= 16 - position % 16
            &&& 1 <= quad.height <= 16 - position / 16
            &&& quad.u == position % 16
            &&& quad.v == position / 16
            &&& quad.entry == entry
            &&& forall|i: int| 0 <= i < 256 && in_quad(quad, i) ==> #[trigger] mask[i] == Some(entry)
        }),
{
    let u = position % 16;
    let v = position / 16;
    assert(mask_index(u, v) == position);
    assert(row_matches(mask, u, v, 1, entry)) by {
        assert forall|k: int| 0 <= k < 1 implies #[trigger] mask[mask_index(u + k, v)] == Some(entry) by {
            assert(k == 0);
        }
    }
    lemma_run_width(mask, u, v, entry, 1);
    let width = if entry.liquid {
        1
    } else {
        run_width(mask, u, v, entry, 1)
    };
    assert(row_matches(mask, u, v, width, entry));
    lemma_run_height(mask, u, v, width, entry, 1);
    let quad = grown_quad(mask, u, v, entry);
    assert forall|i: int| 0 <= i < 256 && in_quad(quad, i) implies #[trigger] mask[i] == Some(entry) by {
        let row = i / 16;
        let k = i % 16 - u;
        assert(row_matches(mask, u, row, width, entry));
        assert(mask_index(u + k, row) == i);
        assert(mask[mask_index(u + k, row)] == Some(entry));
    }
}

/// Greedy merging from a cell on covers exactly the faces from that cell on:
/// every quad cell holds the quad's face, quads do not overlap, and every
/// face is in a quad.
proof fn lemma_greedy_partition(mask: Seq<Option<MaskEntry>>, position: int)
    requires
        mask.len() == 256,
        0 <= position <= 256,
    ensures
        ({
            let quads = greedy_from(mask, position);
            &&& forall|t: int, i: int|
                0 <= t < quads.len() && 0 <= i < 256 && #[trigger] in_quad(quads[t], i) ==> i
                    >= position && mask[i] == Some(quads[t].entry)
            &&& forall|t1: int, t2: int, i: int|
                0 <= t1 < t2 < quads.len() && 0 <= i < 256 && #[trigger] in_quad(quads[t1], i)
                    ==> !#[trigger] in_quad(quads[t2], i)
            &&& forall|i: int|
                position <= i < 256 && #[trigger] mask[i] is Some ==> exists|t: int|
                    0 <= t < quads.len() && #[trigger] in_quad(quads[t], i)
        }),
    decreases 256 - position,
{
    if position < 256 {
        let u = position % 16;
        let v = position / 16;
        match mask[position] {
            None => {
                lemma_greedy_partition(mask, position + 1);
                let quads = greedy_from(mask, position);
                assert(quads == greedy_from(mask, position + 1));
                assert forall|i: int| position <= i < 256 && #[trigger] mask[i] is Some implies exists|t: int|
                    0 <= t < quads.len() && #[trigger] in_quad(quads[t], i) by {
                    assert(i != position);
                }
            },
            Some(entry) => {
                lemma_grown_quad(mask, position, entry);
                let quad = grown_quad(mask, u, v, entry);
                let w = quad.width as int;
                let h = quad.height as int;
                let rest_mask = cleared(mask, u, v, w, h);
                lemma_greedy_partition(rest_mask, position + w);
                let rest = greedy_from(rest_mask, position + w);
                let quads = greedy_from(mask, position);
                assert(quads == seq![quad] + rest);
                assert forall|i: int| 0 <= i < 256 && in_quad(quad, i) implies i >= position by {
                    assert(i / 16 >= v);
                    assert(i == (i / 16) * 16 + i % 16);
                    assert(position == v * 16 + u);
                }
                assert forall|t: int, i: int|
                    0 <= t < quads.len() && 0 <= i < 256 && #[trigger] in_quad(quads[t], i) implies i
                        >= position && mask[i] == Some(quads[t].entry) by {
                    if t > 0 {
                        assert(quads[t] == rest[t - 1]);
                        assert(in_quad(rest[t - 1], i));
                        assert(rest_mask[i] == Some(rest[t - 1].entry));
                    }
                }
                assert forall|t1: int, t2: int, i: int|
                    0 <= t1 < t2 < quads.len() && 0 <= i < 256 && #[trigger] in_quad(quads[t1], i)
                        implies !#[trigger] in_quad(quads[t2], i) by {
                    assert(quads[t2] == rest[t2 - 1]);
                    if t1 == 0 {
                        if in_quad(rest[t2 - 1], i) {
                            assert(rest_mask[i] == Some(rest[t2 - 1].entry));
                        }
                    } else {
                        assert(quads[t1] == rest[t1 - 1]);
                    }
                }
                assert forall|i: int| position <= i < 256 && #[trigger] mask[i] is Some implies exists|t: int|
                    0 <= t < quads.len() && #[trigger] in_quad(quads[t], i) by {
                    if in_quad(quad, i) {
                        assert(in_quad(quads[0], i));
                    } else {
                        assert(rest_mask[i] == mask[i]);
                        assert(i == (i / 16) * 16 + i % 16);
                        assert(position == v * 16 + u);
                        assert(i >= position + w) by {
                            if i / 16 == v {
                                assert(!(u <= i % 16 < u + w));
                            }
                        }
                        let t = choose|t: int| 0 <= t < rest.len() && #[trigger] in_quad(rest[t], i);
                        assert(quads[t + 1] == rest[t]);
                        assert(in_quad(quads[t + 1], i));
                    }
                }
            },
        }
    }
}

/// Greedy merging covers exactly the faces of a slice: every cell of a quad
/// holds the quad's face, no two quads overlap, and every face lies in a quad.
pub proof fn law_merged_quads_partition_the_faces(mask: Seq<Option<MaskEntry>>)
    requires
        mask.len() == 256,
    ensures
        ({
            let quads = greedy_from(mask, 0);
            &&& forall|t: int, i: int|
                0 <= t < quads.len() && 0 <= i < 256 && #[trigger] in_quad(quads[t], i) ==> mask[i]
                    == Some(quads[t].entry)
            &&& forall|t1: int, t2: int, i: int|
                0 <= t1 < t2 < quads.len() && 0 <= i < 256 && #[trigger] in_quad(quads[t1], i)
                    ==> !#[trigger] in_quad(quads[t2], i)
            &&& forall|i: int|
                0 <= i < 256 && #[trigger] mask[i] is Some ==> exists|t: int|
                    0 <= t < quads.len() && #[trigger] in_quad(quads[t], i)
        }),
{
    lemma_greedy_partition(mask, 0);
}

/// The cell of a slice seen from one of the six face directions: +x and -x
/// slices are indexed (slice, v, u), +y and -y slices (v, slice, u), +z and
/// -z slices (u, v, slice).
pub open spec fn slice_cell_spec(direction: int, slice: u32, u: u32, v: u32) -> UVec3 {
    if direction < 2 {
        UVec3 { x: slice, y: v, z: u }
    } else if direction < 4 {
        UVec3 { x: v, y: slice, z: u }
    } else {
        UVec3 { x: u, y: v, z: slice }
    }
}

/// The chunk cell of a slice cell for a face direction.
pub fn slice_cell(direction: usize, slice: u32, u: u32, v: u32) -> (r: UVec3)
    requires
        direction < 6,
    ensures
        r == slice_cell_spec(direction as int, slice, u, v),
{
    if direction < 2 {
        UVec3 { x: slice, y: v, z: u }
    } else if direction < 4 {
        UVec3 { x: v, y: slice, z: u }
    } else {
        UVec3 { x: u, y: v, z: slice }
    }
}

/// The four corners of a quad, in chunk-local block units and in drawing
/// order, for a face direction and slice: faces towards +x, +y and +z lie one
/// block above the slice.
pub open spec fn quad_corners_spec(direction: int, slice: int, quad: MaskQuad) -> Seq<(int, int, int)> {
    let s = slice;
    let u = quad.u as int;
    let v = quad.v as int;
    let w = quad.width as int;
    let h = quad.height as int;
    if direction == 0 {
        seq![(s + 1, v, u), (s + 1, v + h, u), (s + 1, v + h, u + w), (s + 1, v, u + w)]
    } else if direction == 1 {
        seq![(s, v, u + w), (s, v + h, u + w), (s, v + h, u), (s, v, u)]
    } else if direction == 2 {
        seq![(v, s + 1, u + w), (v + h, s + 1, u + w), (v + h, s + 1, u), (v, s + 1, u)]
    } else if direction == 3 {
        seq![(v, s, u), (v + h, s, u), (v + h, s, u + w), (v, s, u + w)]
    } else if direction == 4 {
        seq![(u + w, v, s + 1), (u + w, v + h, s + 1), (u, v + h, s + 1), (u, v, s + 1)]
    } else {
        seq![(u, v, s), (u, v + h, s), (u + w, v + h, s), (u + w, v, s)]
    }
}

/// The point of a face direction's slice grid: `slice` along the direction's
/// axis, `a` along the slice's u axis and `b` along its v axis, laid out as
/// `slice_cell_spec` lays out cells.
pub open spec fn slice_point(direction: int, slice: int, a: int, b: int) -> (int, int, int) {
    if direction < 2 {
        (slice, b, a)
    } else if direction < 4 {
        (b, slice, a)
    } else {
        (a, b, slice)
    }
}

/// Slice points and slice cells agree on the layout of the axes.
pub proof fn lemma_slice_point_is_the_cell_corner(direction: int, slice: u32, u: u32, v: u32)
    requires
        0 <= direction < 6,
    ensures
        ({
            let cell = slice_cell_spec(direction, slice, u, v);
            slice_point(direction, slice as int, u as int, v as int) == (
                cell.x as int,
                cell.y as int,
                cell.z as int,
            )
        }),
{
}

/// A quad's corners span exactly its cells: they are the four corners of the
/// rectangle from (u, v) to (u + width, v + height) of the slice grid, on the
/// face's plane (one block past the slice for faces towards +x, +y and +z),
/// each corner once.
pub proof fn law_quad_corners_span_the_quad(direction: int, slice: int, quad: MaskQuad)
    requires
        0 <= direction < 6,
    ensures
        ({
            let corners = quad_corners_spec(direction, slice, quad);
            let plane = if direction % 2 == 0 {
                slice + 1
            } else {
                slice
            };
            let u = quad.u as int;
            let v = quad.v as int;
            let w = quad.width as int;
            let h = quad.height as int;
            &&& corners.len() == 4
            &&& corners.to_set() == set![
                slice_point(direction, plane, u, v),
                slice_point(direction, plane, u + w, v),
                slice_point(direction, plane, u, v + h),
                slice_point(direction, plane, u + w, v + h),
            ]
        }),
{
    let corners = quad_corners_spec(direction, slice, quad);
    let plane = if direction % 2 == 0 {
        slice + 1
    } else {
        slice
    };
    let u = quad.u as int;
    let v = quad.v as int;
    let w = quad.width as int;
    let h = quad.height as int;
    let expected = set![
        slice_point(direction, plane, u, v),
        slice_point(direction, plane, u + w, v),
        slice_point(direction, plane, u, v + h),
        slice_point(direction, plane, u + w, v + h),
    ];
    assert forall|c: (int, int, int)| corners.to_set().contains(c) <==> expected.contains(c) by {
        if corners.to_set().contains(c) {
            assert(corners.contains(c));
            let k = choose|k: int| 0 <= k < corners.len() && corners[k] == c;
            assert(k == 0 || k == 1 || k == 2 || k == 3);
        }
        if expected.contains(c) {
            assert(corners[0] == c || corners[1] == c || corners[2] == c || corners[3] == c);
            if corners[0] == c {
                assert(corners.contains(c));
            } else if corners[1] == c {
                assert(corners.contains(c));
            } else if corners[2] == c {
                assert(corners.contains(c));
            } else {
                assert(corners.contains(c));
            }
        }
    }
    assert(corners.to_set() =~= expected);
}

/// The corners of a quad of a slice mask, in block units local to the chunk.
pub fn quad_corners(direction: usize, slice: u32, quad: MaskQuad) -> (r: Vec<(u32, u32, u32)>)
    requires
        direction < 6,
        slice < 16,
        quad.u + quad.width <= 16,
        quad.v + quad.height <= 16,
    ensures
        r@.len() == 4,
        forall|i: int|
            0 <= i < 4 ==> (r@[i].0 as int, r@[i].1 as int, r@[i].2 as int) == #[trigger] quad_corners_spec(
                direction as int,
                slice as int,
                quad,
            )[i],
{
    let s = slice;
    let u = quad.u;
    let v = quad.v;
    let w = quad.width;
    let h = quad.height;
    let corners = if direction == 0 {
        vec![(s + 1, v, u), (s + 1, v + h, u), (s + 1, v + h, u + w), (s + 1, v, u + w)]
    } else if direction == 1 {
        vec![(s, v, u + w), (s, v + h, u + w), (s, v + h, u), (s, v, u)]
    } else if direction == 2 {
        vec![(v, s + 1, u + w), (v + h, s + 1, u + w), (v + h, s + 1, u), (v, s + 1, u)]
    } else if direction == 3 {
        vec![(v, s, u), (v + h, s, u), (v + h, s, u + w), (v, s, u + w)]
    } else if direction == 4 {
        vec![(u + w, v, s + 1), (u + w, v + h, s + 1), (u, v + h, s + 1), (u, v, s + 1)]
    } else {
        vec![(u, v, s), (u, v + h, s), (u + w, v + h, s), (u + w, v, s)]
    };
    corners
}

/// Texture coordinates of a quad's corners: the texture repeats once per block.
pub fn quad_uvs(quad: MaskQuad) -> (r: Vec<(u32, u32)>)
    ensures
        r@ == seq![(0u32, quad.height), (0u32, 0u32), (quad.width, 0u32), (quad.width, quad.height)],
{
    vec![(0, quad.height), (0, 0), (quad.width, 0), (quad.width, quad.height)]
}

/// The two triangles of a quad whose first corner is vertex `first`.
pub fn quad_indices(first: u32) -> (r: Vec<u32>)
    requires
        first <= u32::MAX - 3,
    ensures
        r@ == seq![first, (first + 1) as u32, (first + 2) as u32, first, (first + 2) as u32, (first
            + 3) as u32],
{
    vec![first, first + 1, first + 2, first, first + 2, first + 3]
}

/// Which face of a block's texture set a face shows.
#[derive(Clone, Copy, Debug, PartialEq, Eq, Structural)]
pub enum TextureFace {
    Top,
    Bottom,
    Side,
}

/// Faces pointing up show the top texture, faces pointing down the bottom
/// texture, and the four others the side texture.
pub fn texture_face(direction: IVec3) -> (r: TextureFace)
    ensures
        r == (if direction.y > 0 {
            TextureFace::Top
        } else if direction.y < 0 {
            TextureFace::Bottom
        } else {
            TextureFace::Side
        }),
{
    if direction.y > 0 {
        TextureFace::Top
    } else if direction.y < 0 {
        TextureFace::Bottom
    } else {
        TextureFace::Side
    }
}

/// The skylight a face receives: that of the block in front of it where its
/// chunk is loaded, and that of the block itself at the edge of the loaded
/// world, so that border faces are not drawn dark.
pub fn face_skylight(world: &World, block: IVec3, neighbour: IVec3) -> (r: u8)
    requires
        world.wf(),
    ensures
        r == (if world.chunk_at(chunk_of(neighbour)) is Some {
            world.skylight_at(neighbour)
        } else {
            world.skylight_at(block)
        }),
{
    let (neighbour_chunk, _) = split_global(neighbour);
    if world.chunk(neighbour_chunk).is_some() {
        world.skylight(neighbour)
    } else {
        world.skylight(block)
    }
}

/// A unit step along at most each axis.
pub open spec fn is_step(direction: IVec3) -> bool {
    &&& -1 <= direction.x <= 1
    &&& -1 <= direction.y <= 1
    &&& -1 <= direction.z <= 1
}

/// The cell one step from `local`, when it lies inside the chunk.
pub open spec fn stepped_local(local: UVec3, direction: IVec3) -> Option<UVec3> {
    let x = local.x + direction.x;
    let y = local.y + direction.y;
    let z = local.z + direction.z;
    if 0 <= x < 16 && 0 <= y < 16 && 0 <= z < 16 {
        Some(UVec3 { x: x as u32, y: y as u32, z: z as u32 })
    } else {
        None
    }
}

/// The block one step from a block of a chunk: read from the chunk itself
/// while the step stays inside it, and from the world otherwise. When the
/// chunk is the world's chunk of that block, this is the world's block next to it.
pub fn neighbour_block(
    world: &World,
    chunk: &Chunk,
    global: IVec3,
    local: UVec3,
    direction: IVec3,
) -> (r: BlockId)
    requires
        world.wf(),
        chunk.wf(),
        in_chunk(local),
        is_step(direction),
        global_in_range(global),
    ensures
        stepped_local(local, direction) matches Some(inside) ==> r == chunk.block_at(inside),
        stepped_local(local, direction) is None ==> r == world.block_at(
            IVec3 {
                x: (global.x + direction.x) as i32,
                y: (global.y + direction.y) as i32,
                z: (global.z + direction.z) as i32,
            },
        ),
        world.chunk_at(chunk_of(global)) == Some(*chunk) && local == local_of(global) ==> r
            == world.block_at(
            IVec3 {
                x: (global.x + direction.x) as i32,
                y: (global.y + direction.y) as i32,
                z: (global.z + direction.z) as i32,
            },
        ),
{
    let x = local.x as i32 + direction.x;
    let y = local.y as i32 + direction.y;
    let z = local.z as i32 + direction.z;
    let target = IVec3 { x: global.x + direction.x, y: global.y + direction.y, z: global.z + direction.z };
    if 0 <= x && x < 16 && 0 <= y && y < 16 && 0 <= z && z < 16 {
        let inside = UVec3 { x: x as u32, y: y as u32, z: z as u32 };
        proof {
            if world.chunk_at(chunk_of(global)) == Some(*chunk) && local == local_of(global) {
                let cp = chunk_of(global);
                law_split_join_roundtrip(global, cp, local);
                assert(global_of(cp, inside) == target);
                law_split_join_roundtrip(target, cp, inside);
            }
        }
        chunk.block(inside)
    } else {
        world.block(target)
    }
}


/// The step towards the neighbour of each of the six face directions, in
/// order: +x, -x, +y, -y, +z, -z.
pub open spec fn face_step_spec(direction: int) -> IVec3 {
    if direction == 0 {
        IVec3 { x: 1i32, y: 0i32, z: 0i32 }
    } else if direction == 1 {
        IVec3 { x: -1i32, y: 0i32, z: 0i32 }
    } else if direction == 2 {
        IVec3 { x: 0i32, y: 1i32, z: 0i32 }
    } else if direction == 3 {
        IVec3 { x: 0i32, y: -1i32, z: 0i32 }
    } else if direction == 4 {
        IVec3 { x: 0i32, y: 0i32, z: 1i32 }
    } else {
        IVec3 { x: 0i32, y: 0i32, z: -1i32 }
    }
}

/// The step towards the neighbour of a face direction.
pub fn face_step(direction: usize) -> (r: IVec3)
    requires
        direction < 6,
    ensures
        r == face_step_spec(direction as int),
{
    if direction == 0 {
        IVec3 { x: 1, y: 0, z: 0 }
    } else if direction == 1 {
        IVec3 { x: -1, y: 0, z: 0 }
    } else if direction == 2 {
        IVec3 { x: 0, y: 1, z: 0 }
    } else if direction == 3 {
        IVec3 { x: 0, y: -1, z: 0 }
    } else if direction == 4 {
        IVec3 { x: 0, y: 0, z: 1 }
    } else {
        IVec3 { x: 0, y: 0, z: -1 }
    }
}

/// The block one step from a block of a chunk, read from the chunk while the
/// step stays inside it and from the world otherwise.
pub open spec fn neighbour_block_spec(
    world: World,
    chunk: Chunk,
    global: IVec3,
    local: UVec3,
    direction: IVec3,
) -> BlockId {
    match stepped_local(local, direction) {
        Some(inside) => chunk.block_at(inside),
        None => world.block_at(
            IVec3 {
                x: (global.x + direction.x) as i32,
                y: (global.y + direction.y) as i32,
                z: (global.z + direction.z) as i32,
            },
        ),
    }
}

/// The skylight a face of `block` towards `neighbour` receives.
pub open spec fn face_skylight_spec(world: World, block: IVec3, neighbour: IVec3) -> u8 {
    if world.chunk_at(chunk_of(neighbour)) is Some {
        world.skylight_at(neighbour)
    } else {
        world.skylight_at(block)
    }
}

/// The face that the cell at `local` of a chunk shows in a face direction,
/// if it shows one. What the block registry says of the blocks comes in as
/// plain values: whether the cell's block is drawn at all, whether its
/// neighbour's block is opaque, and the texture layer of the cell's block
/// for this face; `top_below_full` says whether the liquid of the cell fills
/// less than the whole cell. A drawn block shows the face unless the
/// neighbour is the same block, or the neighbour is opaque and the face is
/// not the lowered top of a liquid.
pub fn mask_entry(
    world: &World,
    chunk: &Chunk,
    chunk_position: IVec3,
    local: UVec3,
    direction: usize,
    top_below_full: bool,
    renderable: bool,
    neighbour_opaque: bool,
    texture_layer: u32,
) -> (r: Option<MaskEntry>)
    requires
        world.wf(),
        chunk.wf(),
        in_chunk(local),
        direction < 6,
        global_fits(chunk_position, local),
        global_in_range(global_of(chunk_position, local)),
    ensures
        ({
            let global = global_of(chunk_position, local);
            let step = face_step_spec(direction as int);
            let block = chunk.block_at(local);
            let neighbour = neighbour_block_spec(*world, *chunk, global, local, step);
            let liquid = block.spec_is_liquid();
            let lowered_top = liquid && direction == 2 && top_below_full;
            let neighbour_position = IVec3 {
                x: (global.x + step.x) as i32,
                y: (global.y + step.y) as i32,
                z: (global.z + step.z) as i32,
            };
            r == if !renderable || (neighbour_opaque && !lowered_top) || neighbour == block {
                None
            } else {
                Some(
                    MaskEntry {
                        block,
                        texture_layer,
                        skylight: face_skylight_spec(*world, global, neighbour_position),
                        liquid,
                    },
                )
            }
        }),
{
    let block = chunk.block(local);
    if !renderable {
        return None;
    }
    let global = global_from_local(chunk_position, local);
    let step = face_step(direction);
    let neighbour_position = IVec3 { x: global.x + step.x, y: global.y + step.y, z: global.z + step.z };
    let neighbour = neighbour_block(world, chunk, global, local, step);
    let liquid = block.is_liquid();
    let lowered_top = liquid && direction == 2 && top_below_full;
    if (neighbour_opaque && !lowered_top) || neighbour == block {
        return None;
    }
    Some(
        MaskEntry {
            block,
            texture_layer,
            skylight: face_skylight(world, global, neighbour_position),
            liquid,
        },
    )
}

} // verus!
