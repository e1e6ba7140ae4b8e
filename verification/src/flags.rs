use vstd::prelude::*;

verus! {

/// Bookkeeping bits that a chunk carries between the world, the mesher and
/// the simulation systems.
#[derive(Clone, Copy, Debug, PartialEq, Eq, Structural, Hash)]
pub struct ChunkFlags {
    bits: u8,
}

impl View for ChunkFlags {
    type V = u8;

    closed spec fn view(&self) -> u8 {
        self.bits
    }
}

/// `mask` is set in `bits` when every bit of `mask` is set.
pub open spec fn bits_contain(bits: u8, mask: u8) -> bool {
    bits & mask == mask
}

impl ChunkFlags {
    pub const DIRTY: u8 = 1;
    pub const MESHED: u8 = 2;
    pub const LOADED: u8 = 4;
    pub const LIGHT_SOURCES: u8 = 8;
    pub const GRASS_TICKS: u8 = 16;
    pub const FLUID_SOURCES: u8 = 32;

    /// No flag set.
    pub fn empty() -> (r: ChunkFlags)
        ensures
            r@ == 0,
    {
        ChunkFlags { bits: 0 }
    }

    pub fn bits(self) -> (r: u8)
        ensures
            r == self@,
    {
        self.bits
    }

    /// True when every bit of `mask` is set.
    pub fn contains(self, mask: u8) -> (r: bool)
        ensures
            r == bits_contain(self@, mask),
    {
        self.bits & mask == mask
    }

    /// Sets every bit of `mask`.
    pub fn insert(&mut self, mask: u8)
        ensures
            final(self)@ == old(self)@ | mask,
    {
        self.bits = self.bits | mask;
    }

    /// Clears every bit of `mask`.
    pub fn remove(&mut self, mask: u8)
        ensures
            final(self)@ == old(self)@ & !mask,
    {
        self.bits = self.bits & !mask;
    }
}

/// After inserting a mask the flags contain it, and every other bit keeps its value.
pub proof fn law_insert_sets_only_the_mask(bits: u8, mask: u8, other: u8)
    ensures
        bits_contain(bits | mask, mask),
        other & mask == 0 ==> (bits_contain(bits | mask, other) == bits_contain(bits, other)),
{
    assert((bits | mask) & mask == mask) by (bit_vector);
    assert(other & mask == 0 ==> (((bits | mask) & other == other) == (bits & other == other)))
        by (bit_vector);
}

/// After removing a non-empty mask the flags no longer contain it, and every
/// bit outside the mask keeps its value.
pub proof fn law_remove_clears_only_the_mask(bits: u8, mask: u8, other: u8)
    ensures
        mask != 0 ==> !bits_contain(bits & !mask, mask),
        other & mask == 0 ==> (bits_contain(bits & !mask, other) == bits_contain(bits, other)),
{
    assert(mask != 0 ==> (bits & !mask) & mask != mask) by (bit_vector);
    assert(other & mask == 0 ==> (((bits & !mask) & other == other) == (bits & other == other)))
        by (bit_vector);
}

} // verus!
