use vstd::prelude::*;

verus! {

/// Flow state of a liquid cell: its distance from a source and whether it falls.
#[derive(Clone, Copy, Debug, PartialEq, Eq, Structural)]
pub struct FluidState {
    level: u8,
    falling: bool,
}

impl FluidState {
    pub closed spec fn spec_level(self) -> u8 {
        self.level
    }

    pub closed spec fn spec_falling(self) -> bool {
        self.falling
    }

    /// The state of a source block: level zero, not falling.
    pub fn source() -> (r: FluidState)
        ensures
            r.spec_level() == 0,
            !r.spec_falling(),
    {
        FluidState { level: 0, falling: false }
    }

    pub fn new(level: u8, falling: bool) -> (r: FluidState)
        ensures
            r.spec_level() == level,
            r.spec_falling() == falling,
    {
        FluidState { level, falling }
    }

    pub fn level(self) -> (r: u8)
        ensures
            r == self.spec_level(),
    {
        self.level
    }

    pub fn is_falling(self) -> (r: bool)
        ensures
            r == self.spec_falling(),
    {
        self.falling
    }
}

} // verus!
