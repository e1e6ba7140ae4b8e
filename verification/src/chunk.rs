use vstd::prelude::*;

use crate::blocks::BlockId;
use crate::flags::ChunkFlags;
use crate::geometry::UVec3;

verus! {

/// Number of blocks along each axis of a chunk.
pub const CHUNK_SIZE: usize = 16;

/// Number of blocks in a chunk.
pub const CHUNK_VOLUME: usize = 4096;

/// Brightest skylight level.
pub const MAX_SKYLIGHT: u8 = 15;

/// A local position addresses a cell of a chunk.
pub open spec fn in_chunk(local: UVec3) -> bool {
    local.x < 16 && local.y < 16 && local.z < 16
}

/// Cells are stored x-major, then y, then z.
pub open spec fn local_index(local: UVec3) -> int {
    local.x * 256 + local.y * 16 + local.z
}

/// The local position of a cell index.
pub open spec fn index_local(index: int) -> UVec3 {
    UVec3 { x: (index / 256) as u32, y: ((index / 16) % 16) as u32, z: (index % 16) as u32 }
}

/// A cell touches one of the six faces of its chunk.
pub open spec fn index_on_border(index: int) -> bool {
    let local = index_local(index);
    local.x == 0 || local.y == 0 || local.z == 0 || local.x == 15 || local.y == 15 || local.z
        == 15
}

/// A liquid cell from which fluid may start flowing: it lies on the chunk border,
/// or one of its six neighbours holds a different block.
pub open spec fn is_fluid_source_candidate(blocks: Seq<BlockId>, index: int) -> bool {
    let block = blocks[index];
    &&& block.is_liquid()
    &&& (index_on_border(index) || blocks[index + 256] != block || blocks[index - 256] != block
        || blocks[index + 16] != block || blocks[index - 16] != block || blocks[index + 1] != block
        || blocks[index - 1] != block)
}

/// The candidate cell indices among the first `n` cells, in increasing order.
pub open spec fn fluid_candidates_upto(blocks: Seq<BlockId>, n: nat) -> Seq<u16>
    decreases n,
{
    if n == 0 {
        Seq::empty()
    } else {
        let earlier = fluid_candidates_upto(blocks, (n - 1) as nat);
        if is_fluid_source_candidate(blocks, n - 1) {
            earlier.push((n - 1) as u16)
        } else {
            earlier
        }
    }
}

/// The candidate cell indices of a whole chunk, in increasing order.
pub open spec fn fluid_candidates(blocks: Seq<BlockId>) -> Seq<u16> {
    fluid_candidates_upto(blocks, 4096)
}

/// Flag bits after a block edit: the chunk must be meshed again.
pub open spec fn edited_flags(bits: u8) -> u8 {
    (bits | ChunkFlags::DIRTY) & !ChunkFlags::MESHED
}

/// Index arithmetic of a cell inside a chunk.
pub proof fn lemma_index_decompose(x: int, y: int, z: int)
    requires
        0 <= x < 16,
        0 <= y < 16,
        0 <= z < 16,
    ensures
        0 <= x * 256 + y * 16 + z < 4096,
        (x * 256 + y * 16 + z) / 256 == x,
        ((x * 256 + y * 16 + z) / 16) % 16 == y,
        (x * 256 + y * 16 + z) % 16 == z,
{
    let i = x * 256 + y * 16 + z;
    assert(i / 256 == x) by (nonlinear_arith)
        requires
            i == x * 256 + y * 16 + z,
            0 <= y < 16,
            0 <= z < 16,
    ;
    assert(i / 16 == x * 16 + y) by (nonlinear_arith)
        requires
            i == x * 256 + y * 16 + z,
            0 <= z < 16,
    ;
    assert((x * 16 + y) % 16 == y) by (nonlinear_arith)
        requires
            0 <= y < 16,
            0 <= x,
    ;
    assert(i % 16 == z) by (nonlinear_arith)
        requires
            i == x * 256 + y * 16 + z,
            0 <= z < 16,
            0 <= x,
            0 <= y,
    ;
}

/// Every cell index is the index of its local position.
pub proof fn lemma_index_local_roundtrip(index: int)
    requires
        0 <= index < 4096,
    ensures
        in_chunk(index_local(index)),
        local_index(index_local(index)) == index,
{
    let x = index / 256;
    let r = index % 256;
    assert(index == x * 256 + r && 0 <= r < 256 && 0 <= x < 16) by (nonlinear_arith)
        requires
            x == index / 256,
            r == index % 256,
            0 <= index < 4096,
    ;
    let y = r / 16;
    let z = r % 16;
    assert(r == y * 16 + z && 0 <= y < 16 && 0 <= z < 16) by (nonlinear_arith)
        requires
            y == r / 16,
            z == r % 16,
            0 <= r < 256,
    ;
    lemma_index_decompose(x, y, z);
}

/// A cubic section of the world, `CHUNK_SIZE` blocks along each axis.
pub struct Chunk {
    blocks: Vec<BlockId>,
    skylight: Vec<u8>,
    fluid_source_candidates: Vec<u16>,
    flags: ChunkFlags,
}

/// The cells of an empty chunk: air everywhere.
pub open spec fn air_blocks() -> Seq<BlockId> {
    Seq::new(4096, |i: int| BlockId::AIR)
}

/// The skylight of an empty chunk: dark everywhere.
pub open spec fn dark_skylight() -> Seq<u8> {
    Seq::new(4096, |i: int| 0u8)
}

impl Chunk {
    /// Block of every cell, by cell index.
    pub closed spec fn blocks_view(self) -> Seq<BlockId> {
        self.blocks@
    }

    /// Skylight level of every cell, by cell index.
    pub closed spec fn skylight_view(self) -> Seq<u8> {
        self.skylight@
    }

    /// Cell indices of the liquid cells recorded as possible fluid sources.
    pub closed spec fn candidates_view(self) -> Seq<u16> {
        self.fluid_source_candidates@
    }

    /// The chunk's flag bits.
    pub closed spec fn flags_view(self) -> u8 {
        self.flags@
    }

    /// Storage holds one block and one skylight level per cell, and every
    /// recorded candidate addresses a cell.
    pub open spec fn wf(self) -> bool {
        &&& self.blocks_view().len() == 4096
        &&& self.skylight_view().len() == 4096
        &&& forall|i: int|
            0 <= i < self.candidates_view().len() ==> #[trigger] self.candidates_view()[i] < 4096
    }

    /// The block of a cell.
    pub open spec fn block_at(self, local: UVec3) -> BlockId {
        self.blocks_view()[local_index(local)]
    }

    /// The skylight level of a cell.
    pub open spec fn skylight_at(self, local: UVec3) -> u8 {
        self.skylight_view()[local_index(local)]
    }

    /// A chunk of air, without skylight, candidates or flags.
    pub fn empty() -> (chunk: Chunk)
        ensures
            chunk.wf(),
            forall|i: int| 0 <= i < 4096 ==> #[trigger] chunk.blocks_view()[i] == BlockId::AIR,
            forall|i: int| 0 <= i < 4096 ==> #[trigger] chunk.skylight_view()[i] == 0,
            chunk.candidates_view().len() == 0,
            chunk.flags_view() == 0,
    {
        let mut blocks: Vec<BlockId> = Vec::new();
        let mut skylight: Vec<u8> = Vec::new();
        let mut i: usize = 0;
        while i < CHUNK_VOLUME
            invariant
                i <= 4096,
                blocks@.len() == i,
                skylight@.len() == i,
                forall|j: int| 0 <= j < i ==> #[trigger] blocks@[j] == BlockId::AIR,
                forall|j: int| 0 <= j < i ==> #[trigger] skylight@[j] == 0,
            decreases 4096 - i,
        {
            blocks.push(BlockId::AIR);
            skylight.push(0);
            i = i + 1;
        }
        Chunk { blocks, skylight, fluid_source_candidates: Vec::new(), flags: ChunkFlags::empty() }
    }

    /// The block stored at `local`.
    pub fn block(&self, local: UVec3) -> (r: BlockId)
        requires
            self.wf(),
            in_chunk(local),
        ensures
            r == self.block_at(local),
    {
        self.blocks[cell_index(local)]
    }

    /// True when every cell holds air.
    pub fn is_empty(&self) -> (r: bool)
        requires
            self.wf(),
        ensures
            r == (forall|i: int| 0 <= i < 4096 ==> #[trigger] self.blocks_view()[i] == BlockId::AIR),
    {
        let mut i: usize = 0;
        while i < CHUNK_VOLUME
            invariant
                i <= 4096,
                self.wf(),
                forall|j: int| 0 <= j < i ==> #[trigger] self.blocks_view()[j] == BlockId::AIR,
            decreases 4096 - i,
        {
            if self.blocks[i] != BlockId::AIR {
                return false;
            }
            i = i + 1;
        }
        true
    }

    /// Stores `block` at `local` and returns the block it replaced. The chunk
    /// becomes dirty and loses its mesh.
    pub fn set_block(&mut self, local: UVec3, block: BlockId) -> (previous: BlockId)
        requires
            old(self).wf(),
            in_chunk(local),
        ensures
            final(self).wf(),
            previous == old(self).block_at(local),
            final(self).blocks_view() == old(self).blocks_view().update(local_index(local), block),
            final(self).skylight_view() == old(self).skylight_view(),
            final(self).candidates_view() == old(self).candidates_view(),
            final(self).flags_view() == edited_flags(old(self).flags_view()),
    {
        let index = cell_index(local);
        let previous = self.blocks[index];
        self.blocks[index] = block;
        self.flags.insert(ChunkFlags::DIRTY);
        self.flags.remove(ChunkFlags::MESHED);
        assert(self.candidates_view() =~= old(self).candidates_view());
        previous
    }

    /// The skylight level stored at `local`.
    pub fn skylight(&self, local: UVec3) -> (r: u8)
        requires
            self.wf(),
            in_chunk(local),
        ensures
            r == self.skylight_at(local),
    {
        self.skylight[cell_index(local)]
    }

    /// Stores a skylight level and returns the level it replaced.
    pub fn set_skylight(&mut self, local: UVec3, level: u8) -> (previous: u8)
        requires
            old(self).wf(),
            in_chunk(local),
            level <= MAX_SKYLIGHT,
        ensures
            final(self).wf(),
            previous == old(self).skylight_at(local),
            final(self).skylight_view() == old(self).skylight_view().update(
                local_index(local),
                level,
            ),
            final(self).blocks_view() == old(self).blocks_view(),
            final(self).candidates_view() == old(self).candidates_view(),
            final(self).flags_view() == old(self).flags_view(),
    {
        let index = cell_index(local);
        let previous = self.skylight[index];
        self.skylight[index] = level;
        assert(self.candidates_view() =~= old(self).candidates_view());
        previous
    }

    /// Darkens every cell.
    pub fn clear_skylight(&mut self)
        requires
            old(self).wf(),
        ensures
            final(self).wf(),
            forall|i: int| 0 <= i < 4096 ==> #[trigger] final(self).skylight_view()[i] == 0,
            final(self).blocks_view() == old(self).blocks_view(),
            final(self).candidates_view() == old(self).candidates_view(),
            final(self).flags_view() == old(self).flags_view(),
    {
        let mut i: usize = 0;
        while i < CHUNK_VOLUME
            invariant
                i <= 4096,
                self.skylight@.len() == 4096,
                self.blocks@ == old(self).blocks@,
                self.fluid_source_candidates@ == old(self).fluid_source_candidates@,
                self.flags == old(self).flags,
                old(self).wf(),
                forall|j: int| 0 <= j < i ==> #[trigger] self.skylight@[j] == 0,
            decreases 4096 - i,
        {
            self.skylight[i] = 0;
            i = i + 1;
        }
        assert(self.candidates_view() =~= old(self).candidates_view());
    }


    /// Recomputes the cells from which fluid may start flowing: every liquid
    /// cell on the chunk border, and every inner liquid cell with a neighbour
    /// holding a different block, in increasing cell order.
    pub fn rebuild_fluid_source_candidates(&mut self)
        requires
            old(self).wf(),
        ensures
            final(self).wf(),
            final(self).candidates_view() == fluid_candidates(old(self).blocks_view()),
            final(self).blocks_view() == old(self).blocks_view(),
            final(self).skylight_view() == old(self).skylight_view(),
            final(self).flags_view() == old(self).flags_view(),
    {
        self.fluid_source_candidates.clear();
        let ghost blocks = self.blocks@;
        let mut x: usize = 0;
        while x < CHUNK_SIZE
            invariant
                x <= 16,
                self.blocks@ == blocks,
                blocks.len() == 4096,
                self.skylight@ == old(self).skylight@,
                self.flags == old(self).flags,
                self.fluid_source_candidates@ == fluid_candidates_upto(blocks, (x * 256) as nat),
                forall|j: int|
                    0 <= j < self.fluid_source_candidates@.len()
                        ==> #[trigger] self.fluid_source_candidates@[j] < 4096,
            decreases 16 - x,
        {
            let mut y: usize = 0;
            while y < CHUNK_SIZE
                invariant
                    x < 16,
                    y <= 16,
                    self.blocks@ == blocks,
                    blocks.len() == 4096,
                    self.skylight@ == old(self).skylight@,
                    self.flags == old(self).flags,
                    self.fluid_source_candidates@ == fluid_candidates_upto(
                        blocks,
                        (x * 256 + y * 16) as nat,
                    ),
                    forall|j: int|
                        0 <= j < self.fluid_source_candidates@.len()
                            ==> #[trigger] self.fluid_source_candidates@[j] < 4096,
                decreases 16 - y,
            {
                let mut z: usize = 0;
                while z < CHUNK_SIZE
                    invariant
                        x < 16,
                        y < 16,
                        z <= 16,
                        self.blocks@ == blocks,
                        blocks.len() == 4096,
                        self.skylight@ == old(self).skylight@,
                        self.flags == old(self).flags,
                        self.fluid_source_candidates@ == fluid_candidates_upto(
                            blocks,
                            (x * 256 + y * 16 + z) as nat,
                        ),
                        forall|j: int|
                            0 <= j < self.fluid_source_candidates@.len()
                                ==> #[trigger] self.fluid_source_candidates@[j] < 4096,
                    decreases 16 - z,
                {
                    let index = x * 256 + y * 16 + z;
                    proof {
                        lemma_index_decompose(x as int, y as int, z as int);
                    }
                    let block = self.blocks[index];
                    let mut candidate = false;
                    if block.is_liquid() {
                        let on_border = x == 0 || y == 0 || z == 0 || x + 1 == CHUNK_SIZE || y + 1
                            == CHUNK_SIZE || z + 1 == CHUNK_SIZE;
                        if on_border {
                            candidate = true;
                        } else {
                            candidate = self.blocks[index + 256] != block || self.blocks[index
                                - 256] != block || self.blocks[index + 16] != block
                                || self.blocks[index - 16] != block || self.blocks[index + 1]
                                != block || self.blocks[index - 1] != block;
                        }
                    }
                    assert(candidate == is_fluid_source_candidate(blocks, index as int));
                    if candidate {
                        self.fluid_source_candidates.push(index as u16);
                    }
                    z = z + 1;
                }
                y = y + 1;
            }
            x = x + 1;
        }
    }

    /// Local positions of the recorded fluid source candidates, in order.
    pub fn fluid_source_candidates(&self) -> (r: Vec<UVec3>)
        requires
            self.wf(),
        ensures
            r@.len() == self.candidates_view().len(),
            forall|i: int|
                0 <= i < r@.len() ==> #[trigger] r@[i] == index_local(
                    self.candidates_view()[i] as int,
                ),
            forall|i: int| 0 <= i < r@.len() ==> in_chunk(#[trigger] r@[i]),
    {
        let mut r: Vec<UVec3> = Vec::new();
        let mut i: usize = 0;
        while i < self.fluid_source_candidates.len()
            invariant
                self.wf(),
                i <= self.fluid_source_candidates@.len(),
                r@.len() == i,
                forall|j: int|
                    0 <= j < i ==> #[trigger] r@[j] == index_local(
                        self.candidates_view()[j] as int,
                    ),
                forall|j: int| 0 <= j < i ==> in_chunk(#[trigger] r@[j]),
            decreases self.fluid_source_candidates@.len() - i,
        {
            let local = decode_local(self.fluid_source_candidates[i]);
            proof {
                assert(self.candidates_view()[i as int] < 4096);
                lemma_index_local_roundtrip(self.candidates_view()[i as int] as int);
            }
            r.push(local);
            i = i + 1;
        }
        r
    }

    /// The chunk's flags.
    pub fn flags(&self) -> (r: ChunkFlags)
        ensures
            r@ == self.flags_view(),
    {
        self.flags
    }

    /// Mutable access to the chunk's flags; the cells are untouched.
    pub fn flags_mut(&mut self) -> (r: &mut ChunkFlags)
        ensures
            (*r)@ == old(self).flags_view(),
            final(self).blocks_view() == old(self).blocks_view(),
            final(self).skylight_view() == old(self).skylight_view(),
            final(self).candidates_view() == old(self).candidates_view(),
            final(self).flags_view() == final(r)@,
    {
        &mut self.flags
    }
}

/// The storage index of a local position.
fn cell_index(local: UVec3) -> (r: usize)
    requires
        in_chunk(local),
    ensures
        r == local_index(local),
        r < 4096,
{
    (local.x as usize) * 256 + (local.y as usize) * 16 + (local.z as usize)
}

/// The compact cell index of a local position.
pub fn encode_local(x: usize, y: usize, z: usize) -> (r: u16)
    requires
        x < 16,
        y < 16,
        z < 16,
    ensures
        r == x * 256 + y * 16 + z,
{
    (x * 256 + y * 16 + z) as u16
}

/// The local position of a compact cell index.
pub fn decode_local(index: u16) -> (r: UVec3)
    ensures
        r == index_local(index as int),
{
    let index = index as u32;
    UVec3 { x: index / 256, y: (index / 16) % 16, z: index % 16 }
}

/// Encoding a local position and decoding the index gives the position back,
/// and every cell index is the encoding of its decoded position.
pub proof fn law_local_encoding_roundtrip(x: int, y: int, z: int, index: int)
    requires
        0 <= x < 16,
        0 <= y < 16,
        0 <= z < 16,
        0 <= index < 4096,
    ensures
        index_local(x * 256 + y * 16 + z) == (UVec3 { x: x as u32, y: y as u32, z: z as u32 }),
        local_index(index_local(index)) == index,
{
    lemma_index_decompose(x, y, z);
    lemma_index_local_roundtrip(index);
}

} // verus!
