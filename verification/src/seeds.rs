use vstd::prelude::*;

verus! {

/// Odd multiplier that spreads the sequence number over all 64 bits.
pub const SEED_SEQUENCE_MULTIPLIER: u64 = 0x9E37_79B9_7F4A_7C15;

/// The inverse of the multiplier modulo 2^64.
pub const SEED_SEQUENCE_INVERSE: u64 = 0xF1DE_83E1_9937_733D;

/// A 64-bit word rotated left by 17 bits.
pub open spec fn rotate_left_17(x: u64) -> u64 {
    (x << 17u64) | (x >> 47u64)
}

/// The seed of a new world: the low 64 bits of the clock reading in
/// nanoseconds, its high bits rotated by 17, and the spread sequence number.
pub open spec fn seed_spec(nanos: u128, sequence: u64) -> u64 {
    (nanos as u64) ^ rotate_left_17((nanos >> 64u128) as u64) ^ sequence.wrapping_mul(
        SEED_SEQUENCE_MULTIPLIER,
    )
}

fn rotate_left_17_exec(x: u64) -> (r: u64)
    ensures
        r == rotate_left_17(x),
{
    (x << 17u64) | (x >> 47u64)
}

/// Reads the system clock as nanoseconds since the Unix epoch.
///
/// Calls `SystemTime::now` and `duration_since(UNIX_EPOCH)`, reading a clock
/// set before the epoch as zero, and converts the duration with `as_nanos`.
/// The reading depends on the time, so nothing is claimed of it.
#[verifier::external_body]
fn unix_time_nanos() -> (r: u128) {
    std::time::SystemTime::now().duration_since(std::time::UNIX_EPOCH).unwrap_or_default().as_nanos()
}

/// Issues the seeds of new worlds: each seed mixes the clock with a fresh
/// sequence number, so that worlds created at the same clock reading differ.
pub struct SeedSequence {
    issued: u64,
}

impl SeedSequence {
    /// Number of the last seed issued.
    pub closed spec fn spec_issued(self) -> u64 {
        self.issued
    }

    /// A sequence that has issued no seed.
    pub fn new() -> (r: SeedSequence)
        ensures
            r.spec_issued() == 0,
    {
        SeedSequence { issued: 0 }
    }

    /// The next seed for a clock reading of `nanos` nanoseconds.
    pub fn seed_at(&mut self, nanos: u128) -> (r: u64)
        ensures
            final(self).spec_issued() == old(self).spec_issued().wrapping_add(1),
            r == seed_spec(nanos, final(self).spec_issued()),
    {
        self.issued = self.issued.wrapping_add(1);
        (nanos as u64) ^ rotate_left_17_exec((nanos >> 64u128) as u64) ^ self.issued.wrapping_mul(
            SEED_SEQUENCE_MULTIPLIER,
        )
    }

    /// The next seed for the current time.
    pub fn generate_seed(&mut self) -> (r: u64)
        ensures
            final(self).spec_issued() == old(self).spec_issued().wrapping_add(1),
            exists|nanos: u128| r == seed_spec(nanos, final(self).spec_issued()),
    {
        let nanos = unix_time_nanos();
        self.seed_at(nanos)
    }
}

/// Multiplying by the multiplier and then by its inverse gives the number back.
proof fn lemma_multiplier_inverse(x: u64)
    ensures
        x.wrapping_mul(SEED_SEQUENCE_MULTIPLIER).wrapping_mul(SEED_SEQUENCE_INVERSE) == x,
{
    let m: int = 0x1_0000_0000_0000_0000;
    let c: int = SEED_SEQUENCE_MULTIPLIER as int;
    let inverse: int = SEED_SEQUENCE_INVERSE as int;
    let k: int = 10771413168148108919;
    assert(c * inverse == 1 + k * m);
    let product = (x as int * c) % m;
    assert(x.wrapping_mul(SEED_SEQUENCE_MULTIPLIER) as int == product);
    vstd::arithmetic::div_mod::lemma_mul_mod_noop_left(x as int * c, inverse, m);
    assert((x as int * c) * inverse == x as int + m * (x as int * k)) by (nonlinear_arith)
        requires
            c * inverse == 1 + k * m,
    ;
    vstd::arithmetic::div_mod::lemma_mod_multiples_vanish(x as int * k, x as int, m);
    vstd::arithmetic::div_mod::lemma_small_mod(x as nat, m as nat);
}

/// Seeds drawn at the same clock reading with different sequence numbers
/// differ: a sequence of seeds repeats no seed within one clock reading.
pub proof fn law_distinct_sequences_give_distinct_seeds(nanos: u128, first: u64, second: u64)
    requires
        first != second,
    ensures
        seed_spec(nanos, first) != seed_spec(nanos, second),
{
    lemma_multiplier_inverse(first);
    lemma_multiplier_inverse(second);
    let base = (nanos as u64) ^ rotate_left_17((nanos >> 64u128) as u64);
    let a = first.wrapping_mul(SEED_SEQUENCE_MULTIPLIER);
    let b = second.wrapping_mul(SEED_SEQUENCE_MULTIPLIER);
    assert(a != b);
    assert((base ^ a) != (base ^ b)) by (bit_vector)
        requires
            a != b,
    ;
}

} // verus!
