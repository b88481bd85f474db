//! Fixed-size chunks of voxel and light data, and the sentinel chunk.

use vstd::prelude::*;

use crate::light::LightLevel;

verus! {

/// The identity of one voxel. Value 0 is the reserved "air" sentinel
/// used throughout the core.
#[derive(Clone, Copy, PartialEq, Eq, Structural, Debug)]
pub struct BlockState {
    pub value: u16,
}

impl BlockState {
    /// True of the reserved "air" block.
    pub open spec fn is_air(self) -> bool {
        self.value == 0
    }

    /// The reserved "air" block.
    pub fn air() -> (b: BlockState)
        ensures
            b == (BlockState { value: 0 }),
            b.is_air(),
    {
        BlockState { value: 0 }
    }
}

/// The mathematical content of a chunk: 4096 blocks and 4096 light
/// cells, both addressed through `cell_index`.
#[verifier::ext_equal]
pub ghost struct ChunkData {
    pub blocks: Seq<BlockState>,
    pub lights: Seq<LightLevel>,
}

/// Cells are stored y-major, then z, then x, each coordinate in 0..16.
pub open spec fn cell_index(x: int, y: int, z: int) -> int {
    (y * 16 + z) * 16 + x
}

/// A well-formed chunk content holds exactly 16x16x16 cells of each kind.
pub open spec fn chunk_data_wf(d: ChunkData) -> bool {
    d.blocks.len() == 4096 && d.lights.len() == 4096
}

/// The content of the sentinel chunk: every block is air, every light
/// cell has block light 0 and sky light 15 (full unobstructed sky).
pub open spec fn empty_chunk_data() -> ChunkData {
    ChunkData {
        blocks: Seq::new(4096, |i: int| BlockState { value: 0 }),
        lights: Seq::new(4096, |i: int| LightLevel { value: 0xf0 }),
    }
}

/// Law: every cell of the sentinel chunk is the air block, with block
/// light 0 and sky light 15.
pub proof fn lemma_empty_chunk_cells(i: int)
    requires
        0 <= i < 4096,
    ensures
        empty_chunk_data().blocks[i].is_air(),
        empty_chunk_data().lights[i].spec_block_light() == 0,
        empty_chunk_data().lights[i].spec_sky_light() == 15,
{
    assert((0xf0u8 & 0x0f) == 0) by (bit_vector);
    assert((0xf0u8 >> 4) == 15) by (bit_vector);
}

/// A 16x16x16 grid of block states with a parallel grid of light
/// levels. Chunks are value types: `duplicate` yields an independent,
/// content-identical copy.
#[derive(PartialEq, Eq, Debug)]
pub struct Chunk {
    blocks: Vec<BlockState>,
    lights: Vec<LightLevel>,
}

impl View for Chunk {
    type V = ChunkData;

    closed spec fn view(&self) -> ChunkData {
        ChunkData { blocks: self.blocks@, lights: self.lights@ }
    }
}

/// An independent copy of a vector of plain values.
pub(crate) fn copy_vec<T: Copy>(v: &Vec<T>) -> (r: Vec<T>)
    ensures
        r@ == v@,
{
    let mut r: Vec<T> = Vec::new();
    let mut i: usize = 0;
    while i < v.len()
        invariant
            i <= v@.len(),
            r@ == v@.subrange(0, i as int),
        decreases v@.len() - i,
    {
        r.push(v[i]);
        proof {
            assert(r@ =~= v@.subrange(0, i + 1));
        }
        i = i + 1;
    }
    proof {
        assert(r@ =~= v@);
    }
    r
}

impl Chunk {
    /// Size invariant: the grids always hold exactly 4096 cells each.
    pub open spec fn wf(self) -> bool {
        chunk_data_wf(self@)
    }

    /// The sentinel chunk: all blocks air, every light cell at block
    /// light 0 and sky light 15. Substituted by the chunk index
    /// wherever no real data is loaded.
    pub fn empty() -> (c: Chunk)
        ensures
            c.wf(),
            c@ == empty_chunk_data(),
    {
        let mut blocks: Vec<BlockState> = Vec::new();
        let mut lights: Vec<LightLevel> = Vec::new();
        let mut i: usize = 0;
        while i < 4096
            invariant
                i <= 4096,
                blocks@.len() == i,
                lights@.len() == i,
                forall|j: int| 0 <= j < i ==> blocks@[j] == (BlockState { value: 0 }),
                forall|j: int| 0 <= j < i ==> lights@[j] == (LightLevel { value: 0xf0 }),
            decreases 4096 - i,
        {
            blocks.push(BlockState { value: 0 });
            lights.push(LightLevel { value: 0xf0 });
            i = i + 1;
        }
        let c = Chunk { blocks, lights };
        proof {
            assert(c@.blocks =~= empty_chunk_data().blocks);
            assert(c@.lights =~= empty_chunk_data().lights);
            assert(c@ =~= empty_chunk_data());
        }
        c
    }

    /// A value-identical, independently owned copy of this chunk.
    pub fn duplicate(&self) -> (c: Chunk)
        ensures
            c@ == self@,
    {
        let c = Chunk { blocks: copy_vec(&self.blocks), lights: copy_vec(&self.lights) };
        proof {
            assert(c@ =~= self@);
        }
        c
    }

    /// Reads the block at (x, y, z), each coordinate in 0..16.
    pub fn block(&self, x: usize, y: usize, z: usize) -> (b: BlockState)
        requires
            self.wf(),
            x < 16,
            y < 16,
            z < 16,
        ensures
            b == self@.blocks[cell_index(x as int, y as int, z as int)],
    {
        self.blocks[(y * 16 + z) * 16 + x]
    }

    /// Reads the light cell at (x, y, z), each coordinate in 0..16.
    pub fn light(&self, x: usize, y: usize, z: usize) -> (l: LightLevel)
        requires
            self.wf(),
            x < 16,
            y < 16,
            z < 16,
        ensures
            l == self@.lights[cell_index(x as int, y as int, z as int)],
    {
        self.lights[(y * 16 + z) * 16 + x]
    }

    /// Replaces the block at (x, y, z), leaving every other cell as it was.
    pub fn set_block(&mut self, x: usize, y: usize, z: usize, b: BlockState)
        requires
            old(self).wf(),
            x < 16,
            y < 16,
            z < 16,
        ensures
            final(self).wf(),
            final(self)@.blocks == old(self)@.blocks.update(
                cell_index(x as int, y as int, z as int),
                b,
            ),
            final(self)@.lights == old(self)@.lights,
    {
        let i = (y * 16 + z) * 16 + x;
        self.blocks[i] = b;
    }

    /// Replaces the light cell at (x, y, z), leaving every other cell as it was.
    pub fn set_light(&mut self, x: usize, y: usize, z: usize, l: LightLevel)
        requires
            old(self).wf(),
            x < 16,
            y < 16,
            z < 16,
        ensures
            final(self).wf(),
            final(self)@.lights == old(self)@.lights.update(
                cell_index(x as int, y as int, z as int),
                l,
            ),
            final(self)@.blocks == old(self)@.blocks,
    {
        let i = (y * 16 + z) * 16 + x;
        self.lights[i] = l;
    }
}

} // verus!
