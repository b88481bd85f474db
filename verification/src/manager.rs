//! The sparse chunk index: a map from column coordinate to column,
//! with neighbor-aware traversal over everything it stores.

use vstd::prelude::*;

use crate::chunk::{empty_chunk_data, Chunk, ChunkData};
use crate::column::{BiomeId, Buffer, ChunkColumn, ColumnData};

verus! {

/// One registered column and its coordinate.
struct ColumnEntry {
    x: i32,
    z: i32,
    column: ChunkColumn,
}

spec fn entry_key(e: ColumnEntry) -> (int, int) {
    (e.x as int, e.z as int)
}

spec fn seq_has_key(s: Seq<ColumnEntry>, k: (int, int)) -> bool {
    exists|i: int| 0 <= i < s.len() && entry_key(s[i]) == k
}

spec fn key_index(s: Seq<ColumnEntry>, k: (int, int)) -> int {
    choose|i: int| 0 <= i < s.len() && entry_key(s[i]) == k
}

spec fn unique_keys(s: Seq<ColumnEntry>) -> bool {
    forall|i: int, j: int| 0 <= i < j < s.len() ==> entry_key(s[i]) != entry_key(s[j])
}

spec fn seq_view(s: Seq<ColumnEntry>) -> Map<(int, int), ColumnData> {
    Map::new(
        |k: (int, int)| seq_has_key(s, k),
        |k: (int, int)| s[key_index(s, k)].column@,
    )
}

proof fn lemma_key_at(s: Seq<ColumnEntry>, i: int)
    requires
        unique_keys(s),
        0 <= i < s.len(),
    ensures
        seq_has_key(s, entry_key(s[i])),
        key_index(s, entry_key(s[i])) == i,
{
    let k = entry_key(s[i]);
    assert(seq_has_key(s, k));
    let j = key_index(s, k);
    assert(0 <= j < s.len() && entry_key(s[j]) == k);
    if j < i {
        assert(entry_key(s[j]) != entry_key(s[i]));
    } else if i < j {
        assert(entry_key(s[i]) != entry_key(s[j]));
    }
}

proof fn lemma_seq_view_at(s: Seq<ColumnEntry>, i: int)
    requires
        unique_keys(s),
        0 <= i < s.len(),
    ensures
        seq_view(s).contains_key(entry_key(s[i])),
        seq_view(s)[entry_key(s[i])] == s[i].column@,
{
    lemma_key_at(s, i);
}

proof fn lemma_seq_view_replace(s: Seq<ColumnEntry>, i: int, e: ColumnEntry)
    requires
        unique_keys(s),
        0 <= i < s.len(),
        entry_key(e) == entry_key(s[i]),
    ensures
        unique_keys(s.update(i, e)),
        seq_view(s.update(i, e)) == seq_view(s).insert(entry_key(e), e.column@),
{
    let s2 = s.update(i, e);
    let k = entry_key(e);
    assert(forall|j: int| 0 <= j < s2.len() ==> entry_key(#[trigger] s2[j]) == entry_key(s[j]));
    assert(unique_keys(s2));
    assert forall|k2: (int, int)| seq_has_key(s2, k2) == seq_has_key(s, k2) by {
        if seq_has_key(s2, k2) {
            let j = choose|j: int| 0 <= j < s2.len() && entry_key(s2[j]) == k2;
            assert(entry_key(s[j]) == k2);
        }
        if seq_has_key(s, k2) {
            let j = choose|j: int| 0 <= j < s.len() && entry_key(s[j]) == k2;
            assert(entry_key(s2[j]) == k2);
        }
    }
    assert forall|k2: (int, int)| #[trigger] seq_view(s2).contains_key(k2) implies seq_view(s2)[k2]
        == seq_view(s).insert(k, e.column@)[k2] by {
        let j2 = key_index(s2, k2);
        assert(seq_has_key(s2, k2));
        assert(0 <= j2 < s2.len() && entry_key(s2[j2]) == k2);
        lemma_key_at(s2, j2);
        if k2 == k {
            lemma_key_at(s2, i);
            assert(j2 == i);
        } else {
            assert(j2 != i);
            assert(s2[j2] == s[j2]);
            lemma_key_at(s, j2);
            assert(seq_view(s)[k2] == s[j2].column@);
        }
    }
    assert(seq_view(s2) =~= seq_view(s).insert(k, e.column@));
}

proof fn lemma_seq_view_push(s: Seq<ColumnEntry>, e: ColumnEntry)
    requires
        unique_keys(s),
        !seq_has_key(s, entry_key(e)),
    ensures
        unique_keys(s.push(e)),
        seq_view(s.push(e)) == seq_view(s).insert(entry_key(e), e.column@),
{
    let s2 = s.push(e);
    let k = entry_key(e);
    assert(forall|j: int| 0 <= j < s.len() ==> #[trigger] s2[j] == s[j]);
    assert(s2[s.len() as int] == e);
    assert forall|i: int, j: int| 0 <= i < j < s2.len() implies entry_key(s2[i]) != entry_key(
        s2[j],
    ) by {
        if j == s.len() {
            if entry_key(s2[i]) == k {
                assert(seq_has_key(s, k));
            }
        }
    }
    assert forall|k2: (int, int)| seq_has_key(s2, k2) == (seq_has_key(s, k2) || k2 == k) by {
        if seq_has_key(s2, k2) {
            let j = choose|j: int| 0 <= j < s2.len() && entry_key(s2[j]) == k2;
            if j < s.len() {
                assert(entry_key(s[j]) == k2);
            }
        }
        if seq_has_key(s, k2) {
            let j = choose|j: int| 0 <= j < s.len() && entry_key(s[j]) == k2;
            assert(entry_key(s2[j]) == k2);
        }
        if k2 == k {
            assert(entry_key(s2[s.len() as int]) == k2);
        }
    }
    assert forall|k2: (int, int)| #[trigger] seq_view(s2).contains_key(k2) implies seq_view(s2)[k2]
        == seq_view(s).insert(k, e.column@)[k2] by {
        let j2 = key_index(s2, k2);
        assert(seq_has_key(s2, k2));
        assert(0 <= j2 < s2.len() && entry_key(s2[j2]) == k2);
        if k2 == k {
            lemma_key_at(s2, s.len() as int);
            assert(j2 == s.len());
        } else {
            assert(j2 < s.len());
            assert(s2[j2] == s[j2]);
            lemma_key_at(s, j2);
            assert(seq_view(s)[k2] == s[j2].column@);
        }
    }
    assert(seq_view(s2) =~= seq_view(s).insert(k, e.column@));
}

/// The chunk index: a sparse mapping from integer column coordinate
/// (x, z) to exactly one column. Keys are unique; registration
/// replaces any column already stored at the same coordinate.
pub struct ChunkManager {
    entries: Vec<ColumnEntry>,
}

impl View for ChunkManager {
    type V = Map<(int, int), ColumnData>;

    closed spec fn view(&self) -> Map<(int, int), ColumnData> {
        seq_view(self.entries@)
    }
}

impl ChunkManager {
    /// Structural invariant: coordinates are unique and every stored
    /// column is well-formed.
    pub closed spec fn wf(self) -> bool {
        &&& unique_keys(self.entries@)
        &&& forall|i: int| 0 <= i < self.entries@.len() ==> (#[trigger] self.entries@[i]).column.wf()
    }

    /// Every column reachable through the view is well-formed.
    pub proof fn lemma_wf_columns(self, k: (int, int))
        requires
            self.wf(),
            self@.contains_key(k),
        ensures
            crate::column::column_data_wf(self@[k]),
    {
        let s = self.entries@;
        let i = key_index(s, k);
        assert(seq_has_key(s, k));
        assert(0 <= i < s.len() && entry_key(s[i]) == k);
    }

    /// An index with no columns registered.
    pub fn new() -> (m: ChunkManager)
        ensures
            m.wf(),
            m@ == Map::<(int, int), ColumnData>::empty(),
    {
        let m = ChunkManager { entries: Vec::new() };
        proof {
            assert(m@ =~= Map::<(int, int), ColumnData>::empty());
        }
        m
    }

    fn find_entry(&self, x: i64, z: i64) -> (r: Option<usize>)
        ensures
            r matches Some(i) ==> 0 <= i < self.entries@.len() && entry_key(
                self.entries@[i as int],
            ) == (x as int, z as int),
            r is None ==> !seq_has_key(self.entries@, (x as int, z as int)),
    {
        let n = self.entries.len();
        let mut i: usize = 0;
        while i < n
            invariant
                n == self.entries@.len(),
                i <= n,
                forall|j: int| 0 <= j < i ==> entry_key(#[trigger] self.entries@[j]) != (
                    x as int,
                    z as int,
                ),
            decreases n - i,
        {
            let e = &self.entries[i];
            if e.x as i64 == x && e.z as i64 == z {
                return Some(i);
            }
            i = i + 1;
        }
        None
    }

    /// Registers `column` at coordinate (x, z), replacing whatever
    /// column was stored there before. Always succeeds; afterwards the
    /// index maps (x, z) to exactly the new column's data.
    pub fn add_chunk_column(&mut self, x: i32, z: i32, column: ChunkColumn)
        requires
            old(self).wf(),
            column.wf(),
        ensures
            final(self).wf(),
            final(self)@ == old(self)@.insert((x as int, z as int), column@),
    {
        let ghost s = self.entries@;
        match self.find_entry(x as i64, z as i64) {
            Some(i) => {
                let e = ColumnEntry { x, z, column };
                proof {
                    lemma_seq_view_replace(s, i as int, e);
                }
                self.entries[i] = e;
                proof {
                    assert(self.entries@ == s.update(i as int, e));
                }
            },
            None => {
                let e = ColumnEntry { x, z, column };
                proof {
                    lemma_seq_view_push(s, e);
                }
                self.entries.push(e);
            },
        }
    }
}

/// True when the index holds a chunk at absolute coordinate (x, y, z):
/// a column is registered at (x, z) and level y lies in its stack.
pub open spec fn chunk_coord(m: Map<(int, int), ColumnData>, x: int, y: int, z: int) -> bool {
    m.contains_key((x, z)) && 0 <= y < m[(x, z)].chunks.len()
}

/// The chunk content the index resolves for absolute coordinate
/// (x, y, z): the stored chunk where one is loaded, and the sentinel
/// chunk everywhere else. Horizontal absence (no column at (x, z)) and
/// vertical absence (level y outside the stack) substitute the same
/// sentinel, independently of each other.
pub open spec fn chunk_at(m: Map<(int, int), ColumnData>, x: int, y: int, z: int) -> ChunkData {
    if chunk_coord(m, x, y, z) {
        m[(x, z)].chunks[y]
    } else {
        empty_chunk_data()
    }
}

/// The biome grid the index resolves for column coordinate (x, z):
/// present exactly when a column is registered there. Absence is
/// reported as absence, never as a fallback grid.
pub open spec fn biomes_at(m: Map<(int, int), ColumnData>, x: int, z: int) -> Option<
    Seq<BiomeId>,
> {
    if m.contains_key((x, z)) {
        Some(m[(x, z)].biomes)
    } else {
        None
    }
}

/// One record of `each_chunk`: an absolute chunk coordinate, the
/// chunk's content, and its cached render-buffer handle.
pub struct ChunkEntry {
    pub x: i32,
    pub y: i32,
    pub z: i32,
    pub chunk: Chunk,
    pub buffer: Option<Buffer>,
}

/// The absolute coordinate a record speaks of.
pub open spec fn entry_coords(r: ChunkEntry) -> (int, int, int) {
    (r.x as int, r.y as int, r.z as int)
}

spec fn entry_rec_key(r: ChunkEntry) -> (int, int) {
    (r.x as int, r.z as int)
}

/// A record of `each_chunk` is faithful to the index: its coordinate
/// is loaded and it carries that chunk's content and buffer slot.
pub open spec fn chunk_entry_ok(m: Map<(int, int), ColumnData>, r: ChunkEntry) -> bool {
    &&& chunk_coord(m, r.x as int, r.y as int, r.z as int)
    &&& r.chunk@ == m[(r.x as int, r.z as int)].chunks[r.y as int]
    &&& r.buffer == m[(r.x as int, r.z as int)].buffers[r.y as int]
}

spec fn key_among(s: Seq<ColumnEntry>, bound: int, k: (int, int)) -> bool {
    exists|i: int| 0 <= i < bound && entry_key(s[i]) == k
}

spec fn level_of(s: Seq<ColumnEntry>, i: int, y: int) -> bool {
    0 <= i < s.len() && 0 <= y < s[i].column@.chunks.len()
}

impl ChunkManager {
    /// Enumerates every stored chunk, one record per chunk, in
    /// unspecified order: each record is faithful to the index, every
    /// loaded coordinate appears, and no coordinate appears twice.
    pub fn each_chunk(&self) -> (out: Vec<ChunkEntry>)
        requires
            self.wf(),
        ensures
            forall|j: int| 0 <= j < out@.len() ==> chunk_entry_ok(self@, #[trigger] out@[j]),
            forall|x: int, y: int, z: int|
                #[trigger] chunk_coord(self@, x, y, z) ==> exists|j: int|
                    0 <= j < out@.len() && entry_coords(out@[j]) == (x, y, z),
            forall|j: int, l: int|
                0 <= j < l < out@.len() ==> entry_coords(out@[j]) != entry_coords(out@[l]),
    {
        let ghost s = self.entries@;
        let mut out: Vec<ChunkEntry> = Vec::new();
        let n = self.entries.len();
        let mut ci: usize = 0;
        while ci < n
            invariant
                self.wf(),
                s == self.entries@,
                n == s.len(),
                ci <= n,
                forall|j: int| 0 <= j < out@.len() ==> chunk_entry_ok(self@, #[trigger] out@[j]),
                forall|j: int|
                    0 <= j < out@.len() ==> key_among(s, ci as int, entry_rec_key(
                        #[trigger] out@[j],
                    )),
                forall|i: int, y: int|
                    i < ci && #[trigger] level_of(s, i, y) ==> exists|j: int|
                        0 <= j < out@.len() && entry_coords(out@[j]) == (
                            s[i].x as int,
                            y,
                            s[i].z as int,
                        ),
                forall|j: int, l: int|
                    0 <= j < l < out@.len() ==> entry_coords(out@[j]) != entry_coords(out@[l]),
            decreases n - ci,
        {
            let e = &self.entries[ci];
            let cn = e.column.level_count();
            let ghost kc = entry_key(s[ci as int]);
            proof {
                lemma_seq_view_at(s, ci as int);
            }
            let mut y: usize = 0;
            while y < cn
                invariant
                    self.wf(),
                    s == self.entries@,
                    n == s.len(),
                    ci < n,
                    e == &self.entries[ci as int],
                    kc == entry_key(s[ci as int]),
                    cn == e.column@.chunks.len(),
                    cn <= 16,
                    y <= cn,
                    forall|j: int| 0 <= j < out@.len() ==> chunk_entry_ok(self@, #[trigger] out@[j]),
                    forall|j: int|
                        0 <= j < out@.len() ==> key_among(s, ci + 1, entry_rec_key(
                            #[trigger] out@[j],
                        )),
                    forall|j: int|
                        0 <= j < out@.len() && entry_rec_key(#[trigger] out@[j]) == kc ==> 0
                            <= entry_coords(out@[j]).1 < y,
                    forall|i: int, y2: int|
                        i < ci && #[trigger] level_of(s, i, y2) ==> exists|j: int|
                            0 <= j < out@.len() && entry_coords(out@[j]) == (
                                s[i].x as int,
                                y2,
                                s[i].z as int,
                            ),
                    forall|y2: int|
                        y2 < y && #[trigger] level_of(s, ci as int, y2) ==> exists|j: int|
                            0 <= j < out@.len() && entry_coords(out@[j]) == (
                                s[ci as int].x as int,
                                y2,
                                s[ci as int].z as int,
                            ),
                    forall|j: int, l: int|
                        0 <= j < l < out@.len() ==> entry_coords(out@[j]) != entry_coords(out@[l]),
                decreases cn - y,
            {
                let rec = ChunkEntry {
                    x: e.x,
                    y: y as i32,
                    z: e.z,
                    chunk: e.column.chunk_at_level(y).duplicate(),
                    buffer: e.column.buffer_at_level(y),
                };
                proof {
                    lemma_seq_view_at(s, ci as int);
                    assert(chunk_entry_ok(self@, rec));
                    assert(key_among(s, ci + 1, entry_rec_key(rec)));
                }
                let ghost prior = out@;
                out.push(rec);
                proof {
                    assert forall|i: int, y2: int| i < ci && #[trigger] level_of(s, i, y2) implies
                        exists|j: int|
                            0 <= j < out@.len() && entry_coords(out@[j]) == (
                                s[i].x as int,
                                y2,
                                s[i].z as int,
                            ) by {
                        let j0 = choose|j: int|
                            0 <= j < prior.len() && entry_coords(prior[j]) == (
                                s[i].x as int,
                                y2,
                                s[i].z as int,
                            );
                        assert(entry_coords(out@[j0]) == (s[i].x as int, y2, s[i].z as int));
                    }
                    assert forall|y2: int| y2 < y + 1 && #[trigger] level_of(
                        s,
                        ci as int,
                        y2,
                    ) implies exists|j: int|
                        0 <= j < out@.len() && entry_coords(out@[j]) == (
                            s[ci as int].x as int,
                            y2,
                            s[ci as int].z as int,
                        ) by {
                        if y2 == y {
                            assert(entry_coords(out@[prior.len() as int]) == (
                                s[ci as int].x as int,
                                y2,
                                s[ci as int].z as int,
                            ));
                        } else {
                            let j0 = choose|j: int|
                                0 <= j < prior.len() && entry_coords(prior[j]) == (
                                    s[ci as int].x as int,
                                    y2,
                                    s[ci as int].z as int,
                                );
                            assert(entry_coords(out@[j0]) == (
                                s[ci as int].x as int,
                                y2,
                                s[ci as int].z as int,
                            ));
                        }
                    }
                }
                y = y + 1;
            }
            ci = ci + 1;
        }
        proof {
            assert forall|x: int, y: int, z: int| #[trigger] chunk_coord(
                self@,
                x,
                y,
                z,
            ) implies exists|j: int|
                0 <= j < out@.len() && entry_coords(out@[j]) == (x, y, z) by {
                let k = (x, z);
                assert(self@.contains_key(k));
                assert(seq_has_key(s, k));
                let i = key_index(s, k);
                assert(0 <= i < s.len() && entry_key(s[i]) == k);
                lemma_seq_view_at(s, i);
                assert(self@[k] == s[i].column@);
                assert(s[i].x as int == x && s[i].z as int == z);
                assert(level_of(s, i, y));
            }
        }
        out
    }
}

/// The position of relative offset (dx, dy, dz) — each in 0..3,
/// standing for -1, 0, +1 — inside the 27-entry chunk stencil.
pub open spec fn stencil_index(dx: int, dy: int, dz: int) -> int {
    (dy * 3 + dz) * 3 + dx
}

/// The position of relative offset (dx, dz) — each in 0..3, standing
/// for -1, 0, +1 — inside the 9-entry biome stencil.
pub open spec fn biome_slot(dx: int, dz: int) -> int {
    dz * 3 + dx
}

/// Executable counterpart of `stencil_index`.
pub fn stencil_slot(dx: usize, dy: usize, dz: usize) -> (i: usize)
    requires
        dx < 3,
        dy < 3,
        dz < 3,
    ensures
        i == stencil_index(dx as int, dy as int, dz as int),
        i < 27,
{
    (dy * 3 + dz) * 3 + dx
}

/// Executable counterpart of `biome_slot`.
pub fn biome_stencil_slot(dx: usize, dz: usize) -> (i: usize)
    requires
        dx < 3,
        dz < 3,
    ensures
        i == biome_slot(dx as int, dz as int),
        i < 9,
{
    dz * 3 + dx
}

/// One record of `each_chunk_and_neighbors`: the absolute coordinate
/// of a central chunk, its cached render-buffer handle, the fully
/// resolved 3x3x3 stencil of chunk contents around it (indexed through
/// `stencil_index`), and the 3x3 stencil of neighboring biome grids
/// (indexed through `biome_slot`).
pub struct ChunkNeighbors {
    pub x: i32,
    pub y: i32,
    pub z: i32,
    pub buffer: Option<Buffer>,
    pub chunks: Vec<Chunk>,
    pub biomes: Vec<Option<Vec<BiomeId>>>,
}

/// The absolute coordinate a stencil record speaks of.
pub open spec fn stencil_coords(r: ChunkNeighbors) -> (int, int, int) {
    (r.x as int, r.y as int, r.z as int)
}

spec fn stencil_rec_key(r: ChunkNeighbors) -> (int, int) {
    (r.x as int, r.z as int)
}

/// The content of one biome-stencil slot.
pub open spec fn biome_view(o: Option<Vec<BiomeId>>) -> Option<Seq<BiomeId>> {
    match o {
        Some(g) => Some(g@),
        None => None,
    }
}

/// A stencil record is faithful to the index: the central coordinate
/// is loaded, the buffer slot is the central chunk's, every one of the
/// 27 stencil entries is the chunk the index resolves for its offset,
/// and every one of the 9 biome entries is present exactly for a
/// registered neighbor column, carrying that column's grid.
pub open spec fn neighbors_ok(m: Map<(int, int), ColumnData>, r: ChunkNeighbors) -> bool {
    let x = r.x as int;
    let y = r.y as int;
    let z = r.z as int;
    &&& chunk_coord(m, x, y, z)
    &&& r.buffer == m[(x, z)].buffers[y]
    &&& r.chunks@.len() == 27
    &&& forall|dx: int, dy: int, dz: int|
        #![trigger stencil_index(dx, dy, dz)]
        0 <= dx < 3 && 0 <= dy < 3 && 0 <= dz < 3 ==> r.chunks@[stencil_index(dx, dy, dz)]@
            == chunk_at(m, x + dx - 1, y + dy - 1, z + dz - 1)
    &&& r.biomes@.len() == 9
    &&& forall|dx: int, dz: int|
        #![trigger biome_slot(dx, dz)]
        0 <= dx < 3 && 0 <= dz < 3 ==> biome_view(r.biomes@[biome_slot(dx, dz)]) == biomes_at(
            m,
            x + dx - 1,
            z + dz - 1,
        )
}

impl ChunkManager {
    fn resolve_chunk(&self, cx: i64, cy: i64, cz: i64) -> (c: Chunk)
        requires
            self.wf(),
        ensures
            c@ == chunk_at(self@, cx as int, cy as int, cz as int),
    {
        let ghost s = self.entries@;
        let ghost m = self@;
        match self.find_entry(cx, cz) {
            Some(i) => {
                proof {
                    lemma_seq_view_at(s, i as int);
                }
                let col = &self.entries[i].column;
                proof {
                    assert(s[i as int].column.wf());
                }
                let levels = col.level_count();
                if 0 <= cy && cy < levels as i64 {
                    col.chunk_at_level(cy as usize).duplicate()
                } else {
                    Chunk::empty()
                }
            },
            None => Chunk::empty(),
        }
    }

    fn resolve_biomes(&self, cx: i64, cz: i64) -> (g: Option<Vec<BiomeId>>)
        requires
            self.wf(),
        ensures
            biome_view(g) == biomes_at(self@, cx as int, cz as int),
    {
        let ghost s = self.entries@;
        match self.find_entry(cx, cz) {
            Some(i) => {
                proof {
                    lemma_seq_view_at(s, i as int);
                }
                Some(self.entries[i].column.biomes_copied())
            },
            None => None,
        }
    }

    fn build_neighbors(&self, ci: usize, y: usize) -> (r: ChunkNeighbors)
        requires
            self.wf(),
            ci < self.entries@.len(),
            y < self.entries@[ci as int].column@.chunks.len(),
        ensures
            neighbors_ok(self@, r),
            stencil_coords(r) == (
                self.entries@[ci as int].x as int,
                y as int,
                self.entries@[ci as int].z as int,
            ),
    {
        let ghost s = self.entries@;
        let ghost m = self@;
        let e = &self.entries[ci];
        let x = e.x;
        let z = e.z;
        proof {
            lemma_seq_view_at(s, ci as int);
            assert(s[ci as int].column.wf());
        }
        let mut chunks: Vec<Chunk> = Vec::new();
        let mut dy: usize = 0;
        while dy < 3
            invariant
                self.wf(),
                s == self.entries@,
                m == self@,
                ci < s.len(),
                y < s[ci as int].column@.chunks.len(),
                s[ci as int].column@.chunks.len() <= 16,
                x == s[ci as int].x,
                z == s[ci as int].z,
                dy <= 3,
                chunks@.len() == dy * 9,
                forall|dx2: int, dy2: int, dz2: int|
                    #![trigger stencil_index(dx2, dy2, dz2)]
                    0 <= dx2 < 3 && 0 <= dy2 < 3 && 0 <= dz2 < 3 && stencil_index(dx2, dy2, dz2)
                        < chunks@.len() ==> chunks@[stencil_index(dx2, dy2, dz2)]@ == chunk_at(
                        m,
                        x + dx2 - 1,
                        y + dy2 - 1,
                        z + dz2 - 1,
                    ),
            decreases 3 - dy,
        {
            let mut dz: usize = 0;
            while dz < 3
                invariant
                    self.wf(),
                    s == self.entries@,
                    m == self@,
                    ci < s.len(),
                    y < s[ci as int].column@.chunks.len(),
                    s[ci as int].column@.chunks.len() <= 16,
                    x == s[ci as int].x,
                    z == s[ci as int].z,
                    dy < 3,
                    dz <= 3,
                    chunks@.len() == dy * 9 + dz * 3,
                    forall|dx2: int, dy2: int, dz2: int|
                        #![trigger stencil_index(dx2, dy2, dz2)]
                        0 <= dx2 < 3 && 0 <= dy2 < 3 && 0 <= dz2 < 3 && stencil_index(
                            dx2,
                            dy2,
                            dz2,
                        ) < chunks@.len() ==> chunks@[stencil_index(dx2, dy2, dz2)]@ == chunk_at(
                            m,
                            x + dx2 - 1,
                            y + dy2 - 1,
                            z + dz2 - 1,
                        ),
                decreases 3 - dz,
            {
                let mut dx: usize = 0;
                while dx < 3
                    invariant
                        self.wf(),
                        s == self.entries@,
                        m == self@,
                        ci < s.len(),
                        y < s[ci as int].column@.chunks.len(),
                        s[ci as int].column@.chunks.len() <= 16,
                        x == s[ci as int].x,
                        z == s[ci as int].z,
                        dy < 3,
                        dz < 3,
                        dx <= 3,
                        chunks@.len() == dy * 9 + dz * 3 + dx,
                        forall|dx2: int, dy2: int, dz2: int|
                            #![trigger stencil_index(dx2, dy2, dz2)]
                            0 <= dx2 < 3 && 0 <= dy2 < 3 && 0 <= dz2 < 3 && stencil_index(
                                dx2,
                                dy2,
                                dz2,
                            ) < chunks@.len() ==> chunks@[stencil_index(dx2, dy2, dz2)]@
                                == chunk_at(m, x + dx2 - 1, y + dy2 - 1, z + dz2 - 1),
                    decreases 3 - dx,
                {
                    let cx: i64 = x as i64 + dx as i64 - 1;
                    let cz: i64 = z as i64 + dz as i64 - 1;
                    let cy: i64 = y as i64 + dy as i64 - 1;
                    let c = self.resolve_chunk(cx, cy, cz);
                    proof {
                        assert(stencil_index(dx as int, dy as int, dz as int)
                            == chunks@.len() as int);
                    }
                    chunks.push(c);
                    dx = dx + 1;
                }
                dz = dz + 1;
            }
            dy = dy + 1;
        }
        let mut biome_grids: Vec<Option<Vec<BiomeId>>> = Vec::new();
        let mut bz: usize = 0;
        while bz < 3
            invariant
                self.wf(),
                s == self.entries@,
                m == self@,
                ci < s.len(),
                x == s[ci as int].x,
                z == s[ci as int].z,
                bz <= 3,
                biome_grids@.len() == bz * 3,
                forall|dx2: int, dz2: int|
                    #![trigger biome_slot(dx2, dz2)]
                    0 <= dx2 < 3 && 0 <= dz2 < 3 && biome_slot(dx2, dz2) < biome_grids@.len()
                        ==> biome_view(biome_grids@[biome_slot(dx2, dz2)]) == biomes_at(
                        m,
                        x + dx2 - 1,
                        z + dz2 - 1,
                    ),
            decreases 3 - bz,
        {
            let mut bx: usize = 0;
            while bx < 3
                invariant
                    self.wf(),
                    s == self.entries@,
                    m == self@,
                    ci < s.len(),
                    x == s[ci as int].x,
                    z == s[ci as int].z,
                    bz < 3,
                    bx <= 3,
                    biome_grids@.len() == bz * 3 + bx,
                    forall|dx2: int, dz2: int|
                        #![trigger biome_slot(dx2, dz2)]
                        0 <= dx2 < 3 && 0 <= dz2 < 3 && biome_slot(dx2, dz2) < biome_grids@.len()
                            ==> biome_view(biome_grids@[biome_slot(dx2, dz2)]) == biomes_at(
                            m,
                            x + dx2 - 1,
                            z + dz2 - 1,
                        ),
                decreases 3 - bx,
            {
                let cx: i64 = x as i64 + bx as i64 - 1;
                let cz: i64 = z as i64 + bz as i64 - 1;
                let g = self.resolve_biomes(cx, cz);
                proof {
                    assert(biome_slot(bx as int, bz as int) == biome_grids@.len() as int);
                }
                biome_grids.push(g);
                bx = bx + 1;
            }
            bz = bz + 1;
        }
        let r = ChunkNeighbors {
            x,
            y: y as i32,
            z,
            buffer: e.column.buffer_at_level(y),
            chunks,
            biomes: biome_grids,
        };
        proof {
            assert(neighbors_ok(m, r));
        }
        r
    }

    /// The neighbor-aware traversal, the heart of the index. One
    /// record per stored chunk, in
    /// unspecified order: each record carries the fully resolved 3x3x3
    /// chunk stencil and 3x3 biome stencil around its central chunk
    /// (`neighbors_ok`), every loaded coordinate appears, and no
    /// coordinate appears twice. Unloaded neighbor directions resolve
    /// to the sentinel chunk, and absent neighbor columns to an absent
    /// biome entry, so a consumer needs no edge-of-world special cases.
    pub fn each_chunk_and_neighbors(&self) -> (out: Vec<ChunkNeighbors>)
        requires
            self.wf(),
        ensures
            forall|j: int| 0 <= j < out@.len() ==> neighbors_ok(self@, #[trigger] out@[j]),
            forall|x: int, y: int, z: int|
                #[trigger] chunk_coord(self@, x, y, z) ==> exists|j: int|
                    0 <= j < out@.len() && stencil_coords(out@[j]) == (x, y, z),
            forall|j: int, l: int|
                0 <= j < l < out@.len() ==> stencil_coords(out@[j]) != stencil_coords(out@[l]),
    {
        let ghost s = self.entries@;
        let mut out: Vec<ChunkNeighbors> = Vec::new();
        let n = self.entries.len();
        let mut ci: usize = 0;
        while ci < n
            invariant
                self.wf(),
                s == self.entries@,
                n == s.len(),
                ci <= n,
                forall|j: int| 0 <= j < out@.len() ==> neighbors_ok(self@, #[trigger] out@[j]),
                forall|j: int|
                    0 <= j < out@.len() ==> key_among(s, ci as int, stencil_rec_key(
                        #[trigger] out@[j],
                    )),
                forall|i: int, y: int|
                    i < ci && #[trigger] level_of(s, i, y) ==> exists|j: int|
                        0 <= j < out@.len() && stencil_coords(out@[j]) == (
                            s[i].x as int,
                            y,
                            s[i].z as int,
                        ),
                forall|j: int, l: int|
                    0 <= j < l < out@.len() ==> stencil_coords(out@[j]) != stencil_coords(out@[l]),
            decreases n - ci,
        {
            let cn = self.entries[ci].column.level_count();
            let ghost kc = entry_key(s[ci as int]);
            let mut y: usize = 0;
            while y < cn
                invariant
                    self.wf(),
                    s == self.entries@,
                    n == s.len(),
                    ci < n,
                    kc == entry_key(s[ci as int]),
                    cn == s[ci as int].column@.chunks.len(),
                    y <= cn,
                    forall|j: int| 0 <= j < out@.len() ==> neighbors_ok(self@, #[trigger] out@[j]),
                    forall|j: int|
                        0 <= j < out@.len() ==> key_among(s, ci + 1, stencil_rec_key(
                            #[trigger] out@[j],
                        )),
                    forall|j: int|
                        0 <= j < out@.len() && stencil_rec_key(#[trigger] out@[j]) == kc ==> 0
                            <= stencil_coords(out@[j]).1 < y,
                    forall|i: int, y2: int|
                        i < ci && #[trigger] level_of(s, i, y2) ==> exists|j: int|
                            0 <= j < out@.len() && stencil_coords(out@[j]) == (
                                s[i].x as int,
                                y2,
                                s[i].z as int,
                            ),
                    forall|y2: int|
                        y2 < y && #[trigger] level_of(s, ci as int, y2) ==> exists|j: int|
                            0 <= j < out@.len() && stencil_coords(out@[j]) == (
                                s[ci as int].x as int,
                                y2,
                                s[ci as int].z as int,
                            ),
                    forall|j: int, l: int|
                        0 <= j < l < out@.len() ==> stencil_coords(out@[j]) != stencil_coords(
                            out@[l],
                        ),
                decreases cn - y,
            {
                let rec = self.build_neighbors(ci, y);
                proof {
                    assert(key_among(s, ci + 1, stencil_rec_key(rec)));
                }
                let ghost prior = out@;
                out.push(rec);
                proof {
                    assert forall|i: int, y2: int| i < ci && #[trigger] level_of(s, i, y2) implies
                        exists|j: int|
                            0 <= j < out@.len() && stencil_coords(out@[j]) == (
                                s[i].x as int,
                                y2,
                                s[i].z as int,
                            ) by {
                        let j0 = choose|j: int|
                            0 <= j < prior.len() && stencil_coords(prior[j]) == (
                                s[i].x as int,
                                y2,
                                s[i].z as int,
                            );
                        assert(stencil_coords(out@[j0]) == (s[i].x as int, y2, s[i].z as int));
                    }
                    assert forall|y2: int| y2 < y + 1 && #[trigger] level_of(
                        s,
                        ci as int,
                        y2,
                    ) implies exists|j: int|
                        0 <= j < out@.len() && stencil_coords(out@[j]) == (
                            s[ci as int].x as int,
                            y2,
                            s[ci as int].z as int,
                        ) by {
                        if y2 == y {
                            assert(stencil_coords(out@[prior.len() as int]) == (
                                s[ci as int].x as int,
                                y2,
                                s[ci as int].z as int,
                            ));
                        } else {
                            let j0 = choose|j: int|
                                0 <= j < prior.len() && stencil_coords(prior[j]) == (
                                    s[ci as int].x as int,
                                    y2,
                                    s[ci as int].z as int,
                                );
                            assert(stencil_coords(out@[j0]) == (
                                s[ci as int].x as int,
                                y2,
                                s[ci as int].z as int,
                            ));
                        }
                    }
                }
                y = y + 1;
            }
            ci = ci + 1;
        }
        proof {
            assert forall|x: int, y: int, z: int| #[trigger] chunk_coord(
                self@,
                x,
                y,
                z,
            ) implies exists|j: int|
                0 <= j < out@.len() && stencil_coords(out@[j]) == (x, y, z) by {
                let k = (x, z);
                assert(self@.contains_key(k));
                assert(seq_has_key(s, k));
                let i = key_index(s, k);
                assert(0 <= i < s.len() && entry_key(s[i]) == k);
                lemma_seq_view_at(s, i);
                assert(self@[k] == s[i].column@);
                assert(s[i].x as int == x && s[i].z as int == z);
                assert(level_of(s, i, y));
            }
        }
        out
    }

    /// Stores (or clears) the cached render-buffer handle for the
    /// chunk at absolute coordinate (x, y, z), leaving everything else
    /// unchanged. Returns false, changing nothing, when no chunk is
    /// loaded there.
    pub fn set_buffer(&mut self, x: i32, y: usize, z: i32, b: Option<Buffer>) -> (ok: bool)
        requires
            old(self).wf(),
        ensures
            final(self).wf(),
            ok == chunk_coord(old(self)@, x as int, y as int, z as int),
            ok ==> final(self)@ == old(self)@.insert(
                (x as int, z as int),
                (ColumnData {
                    chunks: old(self)@[(x as int, z as int)].chunks,
                    buffers: old(self)@[(x as int, z as int)].buffers.update(y as int, b),
                    biomes: old(self)@[(x as int, z as int)].biomes,
                }),
            ),
            !ok ==> final(self)@ == old(self)@,
    {
        let ghost s = self.entries@;
        match self.find_entry(x as i64, z as i64) {
            Some(i) => {
                proof {
                    lemma_seq_view_at(s, i as int);
                }
                if y < self.entries[i].column.level_count() {
                    self.entries[i].column.set_buffer_at_level(y, b);
                    proof {
                        let e2 = self.entries@[i as int];
                        assert(self.entries@ == s.update(i as int, e2));
                        lemma_seq_view_replace(s, i as int, e2);
                        assert(e2.column@ =~= (ColumnData {
                            chunks: seq_view(s)[(x as int, z as int)].chunks,
                            buffers: seq_view(s)[(x as int, z as int)].buffers.update(y as int, b),
                            biomes: seq_view(s)[(x as int, z as int)].biomes,
                        }));
                    }
                    true
                } else {
                    false
                }
            },
            None => false,
        }
    }
}

/// Law: the stencil entry at relative offset (0, 0, 0) of a faithful
/// traversal record is exactly the chunk stored at the record's
/// coordinate in the owning column.
pub proof fn lemma_central_chunk(m: Map<(int, int), ColumnData>, r: ChunkNeighbors)
    requires
        neighbors_ok(m, r),
    ensures
        r.chunks@[stencil_index(1, 1, 1)]@ == m[(r.x as int, r.z as int)].chunks[r.y as int],
{
    assert(stencil_index(1, 1, 1) == 13);
    assert(r.chunks@[13]@ == chunk_at(m, r.x as int, r.y as int, r.z as int));
}

/// Law: every unresolved neighbor direction yields the sentinel chunk.
/// A missing column at (x, z) and a level y outside a registered
/// column's stack both resolve to the same all-air, full-sky content,
/// independently of each other.
pub proof fn lemma_edge_substitution(m: Map<(int, int), ColumnData>, x: int, y: int, z: int)
    requires
        !m.contains_key((x, z)) || y < 0 || y >= m[(x, z)].chunks.len(),
    ensures
        chunk_at(m, x, y, z) == empty_chunk_data(),
{
}

/// Law: a faithful record's biome stencil has a present entry exactly
/// for each registered neighbor column, equal to that column's grid,
/// and an absent entry elsewhere.
pub proof fn lemma_biome_presence(m: Map<(int, int), ColumnData>, r: ChunkNeighbors, dx: int, dz: int)
    requires
        neighbors_ok(m, r),
        0 <= dx < 3,
        0 <= dz < 3,
    ensures
        (biome_view(r.biomes@[biome_slot(dx, dz)]) is Some) == m.contains_key(
            (r.x as int + dx - 1, r.z as int + dz - 1),
        ),
        m.contains_key((r.x as int + dx - 1, r.z as int + dz - 1)) ==> biome_view(
            r.biomes@[biome_slot(dx, dz)],
        ) == Some(m[(r.x as int + dx - 1, r.z as int + dz - 1)].biomes),
{
    assert(biome_view(r.biomes@[biome_slot(dx, dz)]) == biomes_at(
        m,
        r.x as int + dx - 1,
        r.z as int + dz - 1,
    ));
}

/// Law: registering a column at a coordinate and then registering
/// another at the same coordinate leaves exactly the second one
/// visible there, with the rest of the index untouched; no data of the
/// first column is reachable afterwards.
pub proof fn lemma_add_column_overrides(
    m: Map<(int, int), ColumnData>,
    k: (int, int),
    a: ColumnData,
    b: ColumnData,
)
    ensures
        m.insert(k, a).insert(k, b) == m.insert(k, b),
{
    assert(m.insert(k, a).insert(k, b) =~= m.insert(k, b));
}

} // verus!
