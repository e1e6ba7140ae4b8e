use vstd::prelude::*;

verus! {

/// Height of the ocean surface.
pub const SEA_LEVEL: i32 = 0;

/// Size of the generated world in chunks: its horizontal extent and the
/// chunk layers below and above sea level.
#[derive(Clone, Copy, Debug, PartialEq, Eq, Structural)]
pub struct TerrainDimensions {
    chunks_x: u32,
    chunks_z: u32,
    chunks_below_sea_level: u32,
    chunks_above_sea_level: u32,
}

impl TerrainDimensions {
    pub closed spec fn spec_chunks_x(self) -> u32 {
        self.chunks_x
    }

    pub closed spec fn spec_chunks_z(self) -> u32 {
        self.chunks_z
    }

    pub closed spec fn spec_chunks_below(self) -> u32 {
        self.chunks_below_sea_level
    }

    pub closed spec fn spec_chunks_above(self) -> u32 {
        self.chunks_above_sea_level
    }

    /// Dimensions with chunks on both horizontal axes and at least the chunk
    /// layer directly above sea level.
    pub fn new(
        chunks_x: u32,
        chunks_z: u32,
        chunks_below_sea_level: u32,
        chunks_above_sea_level: u32,
    ) -> (r: TerrainDimensions)
        requires
            chunks_x > 0,
            chunks_z > 0,
            chunks_above_sea_level > 0,
        ensures
            r.spec_chunks_x() == chunks_x,
            r.spec_chunks_z() == chunks_z,
            r.spec_chunks_below() == chunks_below_sea_level,
            r.spec_chunks_above() == chunks_above_sea_level,
    {
        TerrainDimensions { chunks_x, chunks_z, chunks_below_sea_level, chunks_above_sea_level }
    }

    pub fn chunks_x(self) -> (r: u32)
        ensures
            r == self.spec_chunks_x(),
    {
        self.chunks_x
    }

    pub fn chunks_z(self) -> (r: u32)
        ensures
            r == self.spec_chunks_z(),
    {
        self.chunks_z
    }

    pub fn chunks_below_sea_level(self) -> (r: u32)
        ensures
            r == self.spec_chunks_below(),
    {
        self.chunks_below_sea_level
    }

    pub fn chunks_above_sea_level(self) -> (r: u32)
        ensures
            r == self.spec_chunks_above(),
    {
        self.chunks_above_sea_level
    }

    /// Number of chunks the world may hold.
    pub open spec fn spec_total(self) -> int {
        self.spec_chunks_x() * self.spec_chunks_z() * (self.spec_chunks_below()
            + self.spec_chunks_above())
    }

    /// Number of chunks the world may hold; the count must fit 32 bits.
    pub fn total_chunks(self) -> (r: u32)
        requires
            self.spec_chunks_below() + self.spec_chunks_above() <= u32::MAX,
            self.spec_total() <= u32::MAX,
        ensures
            r == self.spec_total(),
    {
        let layers = self.chunks_below_sea_level + self.chunks_above_sea_level;
        let x = self.chunks_x as u64;
        let z = self.chunks_z as u64;
        assert(x * z <= u32::MAX as int * u32::MAX as int) by (nonlinear_arith)
            requires
                x <= u32::MAX,
                z <= u32::MAX,
        ;
        let plane = x * z;
        assert(plane * layers == self.spec_total()) by (nonlinear_arith)
            requires
                plane == x * z,
                x == self.spec_chunks_x(),
                z == self.spec_chunks_z(),
                layers == self.spec_chunks_below() + self.spec_chunks_above(),
        ;
        assert(plane * layers <= u32::MAX);
        (plane * layers as u64) as u32
    }
}

impl Default for TerrainDimensions {
    /// 512 by 512 chunks, 32 layers below and 32 above sea level.
    fn default() -> (r: TerrainDimensions)
        ensures
            r.spec_chunks_x() == 512,
            r.spec_chunks_z() == 512,
            r.spec_chunks_below() == 32,
            r.spec_chunks_above() == 32,
    {
        TerrainDimensions::new(512, 512, 32, 32)
    }
}

} // verus!
