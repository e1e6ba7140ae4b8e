use vstd::prelude::*;

verus! {

/// Identifier of a block type stored in a chunk cell.
#[allow(non_camel_case_types)]
#[derive(Clone, Copy, Debug, PartialEq, Eq, Structural, Hash)]
pub enum BlockId {
    AIR,
    STONE,
    DIRT,
    GRASS,
    COBBLESTONE,
    WOOD,
    WOOD_LOG,
    LEAVES,
    SAND,
    GRAVEL,
    CLAY,
    WATER,
    LAVA,
}

impl BlockId {
    /// Water and lava are the liquid blocks.
    pub open spec fn spec_is_liquid(self) -> bool {
        self == BlockId::WATER || self == BlockId::LAVA
    }

    #[verifier::when_used_as_spec(spec_is_liquid)]
    pub fn is_liquid(self) -> (r: bool)
        ensures
            r == self.spec_is_liquid(),
    {
        match self {
            BlockId::WATER | BlockId::LAVA => true,
            _ => false,
        }
    }
}

} // verus!
