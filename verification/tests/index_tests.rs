use hematite::chunk::{BlockState, Chunk};
use hematite::column::{BiomeId, Buffer, ChunkColumn};
use hematite::manager::{biome_stencil_slot, stencil_slot, ChunkManager, ChunkNeighbors};

fn grid(v: u8) -> Vec<BiomeId> {
    vec![BiomeId { value: v }; 256]
}

/// A column with `levels` chunks; level `lv` carries `marker + lv` at
/// block position (0, 0, 0).
fn column(levels: u16, marker: u16, biome: u8) -> ChunkColumn {
    let mut chunks = Vec::new();
    for lv in 0..levels {
        let mut c = Chunk::empty();
        c.set_block(0, 0, 0, BlockState { value: marker + lv });
        chunks.push(c);
    }
    ChunkColumn::new(chunks, grid(biome))
}

fn records_at(out: &[ChunkNeighbors], x: i32, z: i32) -> Vec<&ChunkNeighbors> {
    out.iter().filter(|r| r.x == x && r.z == z).collect()
}

#[test]
fn registration_override_leaves_only_the_second_column() {
    let mut m = ChunkManager::new();
    m.add_chunk_column(4, -5, column(3, 100, 1));
    m.add_chunk_column(4, -5, column(2, 200, 2));
    let out = m.each_chunk();
    assert_eq!(out.len(), 2);
    for rec in &out {
        assert_eq!(rec.x, 4);
        assert_eq!(rec.z, -5);
        // Only the second column's data is visible.
        let marker = rec.chunk.block(0, 0, 0).value;
        assert_eq!(marker, 200 + rec.y as u16);
    }
    let stencils = m.each_chunk_and_neighbors();
    assert_eq!(stencils.len(), 2);
    for rec in &stencils {
        let slot = stencil_slot(1, 1, 1);
        assert_eq!(rec.chunks[slot].block(0, 0, 0).value, 200 + rec.y as u16);
        let b = rec.biomes[biome_stencil_slot(1, 1)].as_ref().unwrap();
        assert_eq!(b[0], BiomeId { value: 2 });
    }
}

#[test]
fn traversal_yields_one_record_per_level() {
    let mut m = ChunkManager::new();
    m.add_chunk_column(2, 3, column(5, 10, 0));
    let out = m.each_chunk_and_neighbors();
    assert_eq!(out.len(), 5);
    let mut seen = [false; 5];
    for rec in &out {
        assert_eq!(rec.x, 2);
        assert_eq!(rec.z, 3);
        let y = rec.y as usize;
        assert!(y < 5);
        assert!(!seen[y], "level visited twice");
        seen[y] = true;
    }
    assert!(seen.iter().all(|&s| s));
}

#[test]
fn central_stencil_entry_is_the_stored_chunk() {
    let mut m = ChunkManager::new();
    m.add_chunk_column(0, 0, column(2, 50, 0));
    let out = m.each_chunk_and_neighbors();
    for rec in &out {
        let center = &rec.chunks[stencil_slot(1, 1, 1)];
        let mut expected = Chunk::empty();
        expected.set_block(0, 0, 0, BlockState { value: 50 + rec.y as u16 });
        assert_eq!(center, &expected);
    }
}

#[test]
fn missing_neighbors_resolve_to_the_sentinel() {
    let mut m = ChunkManager::new();
    m.add_chunk_column(0, 0, column(2, 77, 0));
    let out = m.each_chunk_and_neighbors();
    let level0 = out.iter().find(|r| r.y == 0).unwrap();
    let sentinel = Chunk::empty();
    // No column is registered at (1, 0): horizontal substitution.
    assert_eq!(level0.chunks[stencil_slot(2, 1, 1)], sentinel);
    // Level -1 does not exist: vertical substitution.
    assert_eq!(level0.chunks[stencil_slot(1, 0, 1)], sentinel);
    // Both at once: a diagonal that is unregistered and out of range.
    assert_eq!(level0.chunks[stencil_slot(0, 0, 0)], sentinel);
    // The top record sees the sentinel above itself.
    let level1 = out.iter().find(|r| r.y == 1).unwrap();
    assert_eq!(level1.chunks[stencil_slot(1, 2, 1)], sentinel);
    // But level 1 sees the real chunk below itself.
    let mut below = Chunk::empty();
    below.set_block(0, 0, 0, BlockState { value: 77 });
    assert_eq!(level1.chunks[stencil_slot(1, 0, 1)], below);
}

#[test]
fn biome_stencil_present_only_for_registered_neighbors() {
    let mut m = ChunkManager::new();
    m.add_chunk_column(0, 0, column(1, 1, 8));
    m.add_chunk_column(1, 0, column(1, 2, 9));
    let out = m.each_chunk_and_neighbors();
    let home = records_at(&out, 0, 0);
    assert_eq!(home.len(), 1);
    let rec = home[0];
    // The neighbor at (dx = +1, dz = 0) is registered: its grid is present.
    let east = rec.biomes[biome_stencil_slot(2, 1)].as_ref().unwrap();
    assert_eq!(east.len(), 256);
    assert!(east.iter().all(|b| *b == BiomeId { value: 9 }));
    // The slot's own grid is present too.
    let center = rec.biomes[biome_stencil_slot(1, 1)].as_ref().unwrap();
    assert!(center.iter().all(|b| *b == BiomeId { value: 8 }));
    // No column at (dx = -1, dz = 0): the entry is absent, not a fallback.
    assert!(rec.biomes[biome_stencil_slot(0, 1)].is_none());
}

#[test]
fn adjacent_columns_see_each_other_in_the_chunk_stencil() {
    let mut m = ChunkManager::new();
    m.add_chunk_column(0, 0, column(1, 1, 0));
    m.add_chunk_column(1, 0, column(1, 2, 0));
    let out = m.each_chunk_and_neighbors();
    let home = records_at(&out, 0, 0)[0];
    let east = &home.chunks[stencil_slot(2, 1, 1)];
    assert_eq!(east.block(0, 0, 0), BlockState { value: 2 });
    let there = records_at(&out, 1, 0)[0];
    let west = &there.chunks[stencil_slot(0, 1, 1)];
    assert_eq!(west.block(0, 0, 0), BlockState { value: 1 });
}

#[test]
fn each_chunk_lists_every_chunk_with_its_buffer() {
    let mut m = ChunkManager::new();
    m.add_chunk_column(-1, -3, column(2, 30, 0));
    m.add_chunk_column(7, 0, column(1, 60, 0));
    let out = m.each_chunk();
    assert_eq!(out.len(), 3);
    for rec in &out {
        // No renderer ran: every buffer slot still empty.
        assert!(rec.buffer.is_none());
        let marker = if rec.x == -1 { 30 } else { 60 };
        assert_eq!(rec.z, if rec.x == -1 { -3 } else { 0 });
        assert_eq!(rec.chunk.block(0, 0, 0).value, marker + rec.y as u16);
    }
}

#[test]
fn set_buffer_stores_and_traversal_reports_it() {
    let mut m = ChunkManager::new();
    m.add_chunk_column(0, 0, column(2, 1, 0));
    assert!(m.set_buffer(0, 1, 0, Some(Buffer { id: 99 })));
    let out = m.each_chunk();
    for rec in &out {
        if rec.y == 1 {
            assert_eq!(rec.buffer, Some(Buffer { id: 99 }));
        } else {
            assert!(rec.buffer.is_none());
        }
    }
    // The stencil traversal reports the same slot.
    for rec in &m.each_chunk_and_neighbors() {
        if rec.y == 1 {
            assert_eq!(rec.buffer, Some(Buffer { id: 99 }));
        } else {
            assert!(rec.buffer.is_none());
        }
    }
    // Clearing the slot works the same way.
    assert!(m.set_buffer(0, 1, 0, None));
    assert!(m.each_chunk().iter().all(|r| r.buffer.is_none()));
}

#[test]
fn set_buffer_refuses_unloaded_coordinates() {
    let mut m = ChunkManager::new();
    m.add_chunk_column(0, 0, column(2, 1, 0));
    // No column at (5, 5).
    assert!(!m.set_buffer(5, 5, 5, Some(Buffer { id: 1 })));
    // Level 2 is outside the stack of the column at (0, 0).
    assert!(!m.set_buffer(0, 2, 0, Some(Buffer { id: 1 })));
    assert!(m.each_chunk().iter().all(|r| r.buffer.is_none()));
}

#[test]
fn empty_index_traverses_nothing() {
    let m = ChunkManager::new();
    assert!(m.each_chunk().is_empty());
    assert!(m.each_chunk_and_neighbors().is_empty());
}

#[test]
fn column_accessors_expose_what_was_stored() {
    let mut biomes = grid(0);
    biomes[3 * 16 + 2] = BiomeId { value: 5 };
    let col = ChunkColumn::new(Vec::new(), biomes);
    assert_eq!(col.level_count(), 0);
    assert_eq!(col.biome(2, 3), BiomeId { value: 5 });
    assert_eq!(col.biome(3, 2), BiomeId { value: 0 });
    assert_eq!(col.biomes_copied().len(), 256);
    assert_eq!(col.biome_grid()[3 * 16 + 2], BiomeId { value: 5 });

    let col2 = ChunkColumn::new(vec![Chunk::empty(), Chunk::empty()], grid(1));
    assert_eq!(col2.level_count(), 2);
    assert!(col2.buffer_at_level(0).is_none());
    assert_eq!(col2.chunk_at_level(1), &Chunk::empty());
}
