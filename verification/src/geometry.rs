use vstd::prelude::*;

verus! {

/// A signed integer position or offset in block or chunk space.
#[derive(Clone, Copy, Debug, PartialEq, Eq, Structural, Hash)]
pub struct IVec3 {
    pub x: i32,
    pub y: i32,
    pub z: i32,
}

/// An unsigned integer position, used for coordinates local to a chunk.
#[derive(Clone, Copy, Debug, PartialEq, Eq, Structural, Hash)]
pub struct UVec3 {
    pub x: u32,
    pub y: u32,
    pub z: u32,
}

/// A signed integer position on the horizontal plane (x, z).
#[derive(Clone, Copy, Debug, PartialEq, Eq, Structural, Hash)]
pub struct IVec2 {
    pub x: i32,
    pub y: i32,
}

impl IVec3 {
    pub fn new(x: i32, y: i32, z: i32) -> (r: IVec3)
        ensures
            r == (IVec3 { x, y, z }),
    {
        IVec3 { x, y, z }
    }
}

impl UVec3 {
    pub fn new(x: u32, y: u32, z: u32) -> (r: UVec3)
        ensures
            r == (UVec3 { x, y, z }),
    {
        UVec3 { x, y, z }
    }
}

impl IVec2 {
    pub fn new(x: i32, y: i32) -> (r: IVec2)
        ensures
            r == (IVec2 { x, y }),
    {
        IVec2 { x, y }
    }
}

/// A coordinate shifted into the unsigned 32-bit range.
pub open spec fn biased(value: i32) -> int {
    value + 0x8000_0000
}

/// The map key of a position: its three biased coordinates as the digits of
/// a base-2^32 number.
pub open spec fn pos_key(p: IVec3) -> u128 {
    (biased(p.x) * 0x1_0000_0000_0000_0000 + biased(p.y) * 0x1_0000_0000 + biased(p.z)) as u128
}

/// The position a map key stands for.
pub open spec fn key_pos(key: u128) -> IVec3 {
    IVec3 {
        x: (key / 0x1_0000_0000_0000_0000 - 0x8000_0000) as i32,
        y: ((key / 0x1_0000_0000) % 0x1_0000_0000 - 0x8000_0000) as i32,
        z: (key % 0x1_0000_0000 - 0x8000_0000) as i32,
    }
}

/// A key that stands for a position.
pub open spec fn is_pos_key(key: u128) -> bool {
    key < 0x1_0000_0000_0000_0000_0000_0000
}

proof fn lemma_digits(a: int, b: int, c: int)
    requires
        0 <= a < 0x1_0000_0000,
        0 <= b < 0x1_0000_0000,
        0 <= c < 0x1_0000_0000,
    ensures
        0 <= a * 0x1_0000_0000_0000_0000 + b * 0x1_0000_0000 + c < 0x1_0000_0000_0000_0000_0000_0000,
        (a * 0x1_0000_0000_0000_0000 + b * 0x1_0000_0000 + c) / 0x1_0000_0000_0000_0000 == a,
        ((a * 0x1_0000_0000_0000_0000 + b * 0x1_0000_0000 + c) / 0x1_0000_0000) % 0x1_0000_0000
            == b,
        (a * 0x1_0000_0000_0000_0000 + b * 0x1_0000_0000 + c) % 0x1_0000_0000 == c,
{
    let k = a * 0x1_0000_0000_0000_0000 + b * 0x1_0000_0000 + c;
    assert(0 <= k < 0x1_0000_0000_0000_0000_0000_0000) by (nonlinear_arith)
        requires
            k == a * 0x1_0000_0000_0000_0000 + b * 0x1_0000_0000 + c,
            0 <= a < 0x1_0000_0000,
            0 <= b < 0x1_0000_0000,
            0 <= c < 0x1_0000_0000,
    ;
    assert(k / 0x1_0000_0000_0000_0000 == a) by (nonlinear_arith)
        requires
            k == a * 0x1_0000_0000_0000_0000 + b * 0x1_0000_0000 + c,
            0 <= b < 0x1_0000_0000,
            0 <= c < 0x1_0000_0000,
    ;
    assert(k / 0x1_0000_0000 == a * 0x1_0000_0000 + b) by (nonlinear_arith)
        requires
            k == a * 0x1_0000_0000_0000_0000 + b * 0x1_0000_0000 + c,
            0 <= c < 0x1_0000_0000,
    ;
    assert((a * 0x1_0000_0000 + b) % 0x1_0000_0000 == b) by (nonlinear_arith)
        requires
            0 <= a,
            0 <= b < 0x1_0000_0000,
    ;
    assert(k % 0x1_0000_0000 == c) by (nonlinear_arith)
        requires
            k == a * 0x1_0000_0000_0000_0000 + b * 0x1_0000_0000 + c,
            0 <= a,
            0 <= b,
            0 <= c < 0x1_0000_0000,
    ;
}

/// Every position has a key, and decoding the key gives the position back;
/// so distinct positions have distinct keys.
pub proof fn lemma_pos_key(p: IVec3)
    ensures
        is_pos_key(pos_key(p)),
        key_pos(pos_key(p)) == p,
{
    lemma_digits(biased(p.x), biased(p.y), biased(p.z));
}

/// Distinct positions have distinct keys.
pub broadcast proof fn lemma_pos_key_injective(p: IVec3, q: IVec3)
    ensures
        (#[trigger] pos_key(p) == #[trigger] pos_key(q)) == (p == q),
{
    lemma_pos_key(p);
    lemma_pos_key(q);
}

/// Every key that stands for a position is that position's key.
pub proof fn lemma_key_pos(key: u128)
    requires
        is_pos_key(key),
    ensures
        pos_key(key_pos(key)) == key,
{
    let a = key / 0x1_0000_0000_0000_0000;
    let b = (key / 0x1_0000_0000) % 0x1_0000_0000;
    let c = key % 0x1_0000_0000;
    assert(key == a * 0x1_0000_0000_0000_0000 + b * 0x1_0000_0000 + c && 0 <= a < 0x1_0000_0000
        && 0 <= b < 0x1_0000_0000 && 0 <= c < 0x1_0000_0000) by (nonlinear_arith)
        requires
            a == key / 0x1_0000_0000_0000_0000,
            b == (key / 0x1_0000_0000) % 0x1_0000_0000,
            c == key % 0x1_0000_0000,
            0 <= key < 0x1_0000_0000_0000_0000_0000_0000,
    ;
}

/// The map key of a position.
pub fn position_key(p: IVec3) -> (r: u128)
    ensures
        r == pos_key(p),
        is_pos_key(r),
{
    proof {
        lemma_pos_key(p);
    }
    let a = (p.x as i64 + 0x8000_0000) as u128;
    let b = (p.y as i64 + 0x8000_0000) as u128;
    let c = (p.z as i64 + 0x8000_0000) as u128;
    a * 0x1_0000_0000_0000_0000 + b * 0x1_0000_0000 + c
}

/// The position a map key stands for.
pub fn key_position(key: u128) -> (r: IVec3)
    requires
        is_pos_key(key),
    ensures
        r == key_pos(key),
        pos_key(r) == key,
{
    proof {
        lemma_key_pos(key);
    }
    let a = (key / 0x1_0000_0000_0000_0000) as i64;
    let b = ((key / 0x1_0000_0000) % 0x1_0000_0000) as i64;
    let c = (key % 0x1_0000_0000) as i64;
    IVec3 { x: (a - 0x8000_0000) as i32, y: (b - 0x8000_0000) as i32, z: (c - 0x8000_0000) as i32 }
}

} // verus!
