use survival_realms::seeds::SeedSequence;

#[test]
fn every_new_world_seed_is_unique_within_the_process() {
    let mut seeds = SeedSequence::new();
    let first = seeds.generate_seed();
    let second = seeds.generate_seed();
    assert_ne!(first, second);
}

#[test]
fn seeds_at_one_clock_reading_still_differ() {
    let mut seeds = SeedSequence::new();
    let first = seeds.seed_at(123_456_789);
    let second = seeds.seed_at(123_456_789);
    assert_ne!(first, second);
    assert_eq!(first, 123_456_789 ^ 0x9E37_79B9_7F4A_7C15);
}

#[test]
fn high_clock_bits_are_rotated_into_the_seed() {
    let mut seeds = SeedSequence::new();
    let nanos: u128 = 1u128 << 64;
    let seed = seeds.seed_at(nanos);
    assert_eq!(seed, (1u64 << 17) ^ 0x9E37_79B9_7F4A_7C15);
}
