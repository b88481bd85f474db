//! Vertical stacks of chunks with shared biome data and render-buffer slots.

use vstd::prelude::*;

use crate::chunk::{copy_vec, Chunk, ChunkData, chunk_data_wf};

verus! {

/// A ground classification for one (x, z) position of a column's
/// 16x16 footprint, shared by every chunk of the column: biome does
/// not vary with height.
#[derive(Clone, Copy, PartialEq, Eq, Structural, Debug)]
pub struct BiomeId {
    pub value: u8,
}

/// A handle to a render buffer built and owned by an outside renderer.
/// The core only stores such handles and hands them back; it never
/// looks inside one.
#[derive(Clone, Copy, PartialEq, Eq, Structural, Debug)]
pub struct Buffer {
    pub id: u32,
}

/// Biome grids are stored z-major: one entry per (x, z) in 0..16 each.
pub open spec fn biome_index(x: int, z: int) -> int {
    z * 16 + x
}

/// The mathematical content of a column: its chunk stack (level 0 is
/// the lowest), one optional render-buffer handle per level, and the
/// shared 256-entry biome grid.
#[verifier::ext_equal]
pub ghost struct ColumnData {
    pub chunks: Seq<ChunkData>,
    pub buffers: Seq<Option<Buffer>>,
    pub biomes: Seq<BiomeId>,
}

/// A well-formed column: one buffer slot per level, at most
/// `MAX_LEVELS` levels, a full biome grid, and well-formed chunks.
pub open spec fn column_data_wf(d: ColumnData) -> bool {
    &&& d.buffers.len() == d.chunks.len()
    &&& d.chunks.len() <= ChunkColumn::MAX_LEVELS
    &&& d.biomes.len() == 256
    &&& forall|i: int| 0 <= i < d.chunks.len() ==> chunk_data_wf(#[trigger] d.chunks[i])
}

/// A vertical stack of chunks sharing one (x, z) footprint, one
/// render-buffer slot per stack level, and one 16x16 biome grid shared
/// by the whole stack.
pub struct ChunkColumn {
    chunks: Vec<Chunk>,
    buffers: Vec<Option<Buffer>>,
    biomes: Vec<BiomeId>,
}

impl View for ChunkColumn {
    type V = ColumnData;

    closed spec fn view(&self) -> ColumnData {
        ColumnData {
            chunks: self.chunks@.map_values(|c: Chunk| c@),
            buffers: self.buffers@,
            biomes: self.biomes@,
        }
    }
}

impl ChunkColumn {
    /// At most this many vertical levels fit in one column, matching
    /// the fixed number of render-buffer slots a column carries.
    pub const MAX_LEVELS: usize = 16;

    /// Structural invariant of a column.
    pub open spec fn wf(self) -> bool {
        column_data_wf(self@)
    }

    /// A fully populated column: the given chunk stack (lowest level
    /// first) and biome grid, with every render-buffer slot empty. The
    /// renderer fills the slots later, through the chunk index.
    pub fn new(chunks: Vec<Chunk>, biomes: Vec<BiomeId>) -> (c: ChunkColumn)
        requires
            chunks@.len() <= ChunkColumn::MAX_LEVELS,
            forall|i: int| 0 <= i < chunks@.len() ==> (#[trigger] chunks@[i]).wf(),
            biomes@.len() == 256,
        ensures
            c.wf(),
            c@.chunks == chunks@.map_values(|ch: Chunk| ch@),
            c@.biomes == biomes@,
            c@.buffers.len() == chunks@.len(),
            forall|i: int| 0 <= i < c@.buffers.len() ==> c@.buffers[i] is None,
    {
        let n = chunks.len();
        let mut buffers: Vec<Option<Buffer>> = Vec::new();
        while buffers.len() < n
            invariant
                buffers@.len() <= n,
                forall|i: int| 0 <= i < buffers@.len() ==> buffers@[i] is None,
            decreases n - buffers@.len(),
        {
            buffers.push(None);
        }
        ChunkColumn { chunks, buffers, biomes }
    }

    /// The number of vertical levels stored in this column.
    pub fn level_count(&self) -> (n: usize)
        ensures
            n == self@.chunks.len(),
    {
        self.chunks.len()
    }

    /// The chunk stored at vertical level `y` (level 0 is the lowest).
    pub fn chunk_at_level(&self, y: usize) -> (c: &Chunk)
        requires
            y < self@.chunks.len(),
        ensures
            c@ == self@.chunks[y as int],
    {
        &self.chunks[y]
    }

    /// The cached render-buffer handle for level `y`, if the renderer
    /// has built one.
    pub fn buffer_at_level(&self, y: usize) -> (b: Option<Buffer>)
        requires
            y < self@.buffers.len(),
        ensures
            b == self@.buffers[y as int],
    {
        self.buffers[y]
    }

    /// Stores (or clears) the render-buffer handle for level `y`,
    /// leaving every other slot and all chunk and biome data as it was.
    pub fn set_buffer_at_level(&mut self, y: usize, b: Option<Buffer>)
        requires
            y < old(self)@.buffers.len(),
        ensures
            final(self)@.buffers == old(self)@.buffers.update(y as int, b),
            final(self)@.chunks == old(self)@.chunks,
            final(self)@.biomes == old(self)@.biomes,
            old(self).wf() ==> final(self).wf(),
    {
        self.buffers[y] = b;
    }

    /// The shared biome grid, indexed through `biome_index`.
    pub fn biome_grid(&self) -> (g: &Vec<BiomeId>)
        ensures
            g@ == self@.biomes,
    {
        &self.biomes
    }

    /// The biome at footprint position (x, z), each coordinate in 0..16.
    pub fn biome(&self, x: usize, z: usize) -> (b: BiomeId)
        requires
            self.wf(),
            x < 16,
            z < 16,
        ensures
            b == self@.biomes[biome_index(x as int, z as int)],
    {
        self.biomes[z * 16 + x]
    }

    /// An independent copy of the biome grid.
    pub fn biomes_copied(&self) -> (g: Vec<BiomeId>)
        ensures
            g@ == self@.biomes,
    {
        copy_vec(&self.biomes)
    }
}

} // verus!
