use vstd::prelude::*;

use crate::chunk::in_chunk;
use crate::geometry::{IVec3, UVec3};

verus! {

/// Chunk that contains a block coordinate along one axis (floor division by 16).
pub open spec fn chunk_axis(global: i32) -> int {
    global as int / 16
}

/// Position of a block coordinate inside its chunk along one axis.
pub open spec fn local_axis(global: i32) -> int {
    global as int % 16
}

/// The chunk that contains a block.
pub open spec fn chunk_of(global: IVec3) -> IVec3 {
    IVec3 {
        x: chunk_axis(global.x) as i32,
        y: chunk_axis(global.y) as i32,
        z: chunk_axis(global.z) as i32,
    }
}

/// The position of a block inside its chunk.
pub open spec fn local_of(global: IVec3) -> UVec3 {
    UVec3 {
        x: local_axis(global.x) as u32,
        y: local_axis(global.y) as u32,
        z: local_axis(global.z) as u32,
    }
}

/// The block coordinate of a local position inside a chunk, as an integer.
pub open spec fn global_axis(chunk: i32, local: u32) -> int {
    chunk * 16 + local
}

/// A chunk and local position whose block coordinates fit the coordinate type.
pub open spec fn global_fits(chunk: IVec3, local: UVec3) -> bool {
    &&& i32::MIN <= global_axis(chunk.x, local.x) <= i32::MAX
    &&& i32::MIN <= global_axis(chunk.y, local.y) <= i32::MAX
    &&& i32::MIN <= global_axis(chunk.z, local.z) <= i32::MAX
}

/// The block coordinates of a local position inside a chunk.
pub open spec fn global_of(chunk: IVec3, local: UVec3) -> IVec3 {
    IVec3 {
        x: global_axis(chunk.x, local.x) as i32,
        y: global_axis(chunk.y, local.y) as i32,
        z: global_axis(chunk.z, local.z) as i32,
    }
}

proof fn lemma_axis_split(g: i32)
    ensures
        0 <= local_axis(g) < 16,
        i32::MIN / 16 <= chunk_axis(g) <= i32::MAX / 16,
        chunk_axis(g) * 16 + local_axis(g) == g,
{
    let q = g as int / 16;
    let r = g as int % 16;
    assert(q * 16 + r == g && 0 <= r < 16) by (nonlinear_arith)
        requires
            q == g as int / 16,
            r == g as int % 16,
    ;
    assert(i32::MIN / 16 <= q <= i32::MAX / 16) by (nonlinear_arith)
        requires
            q * 16 + r == g,
            0 <= r < 16,
            i32::MIN <= g <= i32::MAX,
    ;
}

proof fn lemma_axis_join(c: i32, l: u32)
    requires
        l < 16,
    ensures
        (c * 16 + l) / 16 == c,
        (c * 16 + l) % 16 == l,
{
    assert((c * 16 + l) / 16 == c && (c * 16 + l) % 16 == l) by (nonlinear_arith)
        requires
            0 <= l < 16,
    ;
}

fn split_axis(global: i32) -> (r: (i32, u32))
    ensures
        r.0 == chunk_axis(global),
        r.1 == local_axis(global),
        r.1 < 16,
{
    proof {
        lemma_axis_split(global);
    }
    let chunk = match global.checked_div_euclid(16) {
        Some(chunk) => chunk,
        None => 0,
    };
    let local = match global.checked_rem_euclid(16) {
        Some(local) => local,
        None => 0,
    };
    (chunk, local as u32)
}

/// Splits a block position into the chunk that contains it and the position
/// inside that chunk.
pub fn split_global(global: IVec3) -> (r: (IVec3, UVec3))
    ensures
        r.0 == chunk_of(global),
        r.1 == local_of(global),
        in_chunk(r.1),
{
    let (cx, lx) = split_axis(global.x);
    let (cy, ly) = split_axis(global.y);
    let (cz, lz) = split_axis(global.z);
    (IVec3 { x: cx, y: cy, z: cz }, UVec3 { x: lx, y: ly, z: lz })
}

/// The block position of a local position inside a chunk.
pub fn global_from_local(chunk: IVec3, local: UVec3) -> (r: IVec3)
    requires
        in_chunk(local),
        global_fits(chunk, local),
    ensures
        r == global_of(chunk, local),
{
    IVec3 {
        x: (chunk.x as i64 * 16 + local.x as i64) as i32,
        y: (chunk.y as i64 * 16 + local.y as i64) as i32,
        z: (chunk.z as i64 * 16 + local.z as i64) as i32,
    }
}

/// Splitting a block position and joining the parts again gives the position
/// back; joining a chunk and an in-chunk position and splitting the result
/// gives both parts back.
pub proof fn law_split_join_roundtrip(global: IVec3, chunk: IVec3, local: UVec3)
    requires
        in_chunk(local),
        global_fits(chunk, local),
    ensures
        in_chunk(local_of(global)),
        global_fits(chunk_of(global), local_of(global)),
        global_of(chunk_of(global), local_of(global)) == global,
        chunk_of(global_of(chunk, local)) == chunk,
        local_of(global_of(chunk, local)) == local,
{
    lemma_axis_split(global.x);
    lemma_axis_split(global.y);
    lemma_axis_split(global.z);
    lemma_axis_join(chunk.x, local.x);
    lemma_axis_join(chunk.y, local.y);
    lemma_axis_join(chunk.z, local.z);
}

} // verus!
