use vstd::prelude::*;

verus! {

/// The final avalanche steps shared by the coordinate hashes.
pub open spec fn finish_mix(value: u64) -> u64 {
    let a = value ^ (value >> 30u64);
    let b = a.wrapping_mul(0xBF58_476D_1CE4_E5B9u64);
    let c = b ^ (b >> 27u64);
    let d = c.wrapping_mul(0x94D0_49BB_1331_11EBu64);
    d ^ (d >> 31u64)
}

/// The two's complement bits of a coordinate, widened to 64 bits.
pub open spec fn coordinate_bits(value: i32) -> u64 {
    value as u32 as u64
}

/// Seeded hash of a horizontal cell.
pub open spec fn hash_spec(seed: u64, x: i32, z: i32) -> u64 {
    finish_mix(
        seed ^ coordinate_bits(x).wrapping_mul(0x9E37_79B1_85EB_CA87u64) ^ coordinate_bits(
            z,
        ).wrapping_mul(0xC2B2_AE3D_27D4_EB4Fu64),
    )
}

/// Seeded hash of a cell of the underground lake lattice.
pub open spec fn lake_cell_hash_spec(seed: u64, x: i32, y: i32, z: i32) -> u64 {
    finish_mix(
        seed ^ coordinate_bits(x).wrapping_mul(0x9E37_79B1_85EB_CA87u64) ^ coordinate_bits(
            y,
        ).wrapping_mul(0xD6E8_FEB8_6659_FD93u64) ^ coordinate_bits(z).wrapping_mul(
            0xC2B2_AE3D_27D4_EB4Fu64,
        ),
    )
}

/// Seeded hash of a cell of the underground deposit lattice.
pub open spec fn deposit_cell_hash_spec(seed: u64, x: i32, y: i32, z: i32) -> u64 {
    finish_mix(
        seed ^ coordinate_bits(x).wrapping_mul(0x9E37_79B1_85EB_CA87u64) ^ coordinate_bits(
            y,
        ).wrapping_mul(0xC2B2_AE3D_27D4_EB4Fu64) ^ coordinate_bits(z).wrapping_mul(
            0x1656_67B1_9E37_79F9u64,
        ),
    )
}

/// The seed handed to a gradient noise generator.
pub open spec fn noise_seed_spec(seed: u64) -> u32 {
    let mixed = finish_mix(seed);
    (mixed ^ (mixed >> 32u64)) as u32
}

/// Soil thickness of a column: the low bit of a partial mix picks three or four.
pub open spec fn dirt_depth_spec(seed: u64, x: i32, z: i32) -> i32 {
    let value = seed ^ 0x4528_21E6_38D0_1377u64 ^ coordinate_bits(x).wrapping_mul(
        0x9E37_79B1_85EB_CA87u64,
    ) ^ coordinate_bits(z).wrapping_mul(0xC2B2_AE3D_27D4_EB4Fu64);
    let a = value ^ (value >> 30u64);
    let b = a.wrapping_mul(0xBF58_476D_1CE4_E5B9u64);
    let c = b ^ (b >> 27u64);
    (3 + (c & 1u64)) as i32
}

fn finish(value: u64) -> (r: u64)
    ensures
        r == finish_mix(value),
{
    let mut value = value;
    value = value ^ (value >> 30);
    value = value.wrapping_mul(0xBF58_476D_1CE4_E5B9);
    value = value ^ (value >> 27);
    value = value.wrapping_mul(0x94D0_49BB_1331_11EB);
    value ^ (value >> 31)
}

/// Seeded hash of a horizontal cell, shared by the lake, river, sediment and
/// biome samplers.
pub fn hash(seed: u64, x: i32, z: i32) -> (r: u64)
    ensures
        r == hash_spec(seed, x, z),
{
    let value = seed ^ (x as u32 as u64).wrapping_mul(0x9E37_79B1_85EB_CA87) ^ (z as u32
        as u64).wrapping_mul(0xC2B2_AE3D_27D4_EB4F);
    finish(value)
}

/// Seeded hash of a cell of the underground lake lattice.
pub fn lake_cell_hash(seed: u64, x: i32, y: i32, z: i32) -> (r: u64)
    ensures
        r == lake_cell_hash_spec(seed, x, y, z),
{
    let value = seed ^ (x as u32 as u64).wrapping_mul(0x9E37_79B1_85EB_CA87) ^ (y as u32
        as u64).wrapping_mul(0xD6E8_FEB8_6659_FD93) ^ (z as u32 as u64).wrapping_mul(
        0xC2B2_AE3D_27D4_EB4F,
    );
    finish(value)
}

/// Seeded hash of a cell of the underground deposit lattice.
pub fn deposit_cell_hash(seed: u64, x: i32, y: i32, z: i32) -> (r: u64)
    ensures
        r == deposit_cell_hash_spec(seed, x, y, z),
{
    let value = seed ^ (x as u32 as u64).wrapping_mul(0x9E37_79B1_85EB_CA87) ^ (y as u32
        as u64).wrapping_mul(0xC2B2_AE3D_27D4_EB4F) ^ (z as u32 as u64).wrapping_mul(
        0x1656_67B1_9E37_79F9,
    );
    finish(value)
}

/// Derives the 32-bit seed of a gradient noise generator from a world seed.
pub fn noise_seed(seed: u64) -> (r: u32)
    ensures
        r == noise_seed_spec(seed),
{
    let mixed = finish(seed);
    (mixed ^ (mixed >> 32)) as u32
}

/// Soil thickness below the surface block of a column: three or four blocks.
pub fn dirt_depth(seed: u64, x: i32, z: i32) -> (r: i32)
    ensures
        r == dirt_depth_spec(seed, x, z),
        r == 3 || r == 4,
{
    let mut value = seed ^ 0x4528_21E6_38D0_1377 ^ (x as u32 as u64).wrapping_mul(
        0x9E37_79B1_85EB_CA87,
    ) ^ (z as u32 as u64).wrapping_mul(0xC2B2_AE3D_27D4_EB4F);
    value = value ^ (value >> 30);
    value = value.wrapping_mul(0xBF58_476D_1CE4_E5B9);
    value = value ^ (value >> 27);
    let low = value & 1;
    assert(low <= 1) by (bit_vector)
        requires
            low == value & 1,
    ;
    3 + low as i32
}

/// A value in `[-radius, radius]` picked by the remainder of `value`.
pub fn signed_range(value: u64, radius: i32) -> (r: i32)
    requires
        0 <= radius < 0x4000_0000,
    ensures
        r == (value % ((radius * 2 + 1) as u64)) as int - radius,
        -radius <= r <= radius,
{
    let span = radius as u64 * 2 + 1;
    let offset = value % span;
    assert(offset < span);
    offset as i32 - radius
}

} // verus!
