//! An in-memory voxel world core.
//!
//! The world is partitioned into fixed 16x16x16 chunks of block and
//! light data. Chunks are stacked into vertical columns that share one
//! biome grid and carry one render-buffer slot per level, and a sparse
//! chunk index maps column coordinates to columns. The index offers a
//! neighbor-aware traversal that materializes, for every stored chunk,
//! its full 3x3x3 neighborhood, substituting a uniform "all air, full
//! sky" sentinel chunk wherever no data is loaded.

pub mod chunk;
pub mod column;
pub mod light;
pub mod manager;
