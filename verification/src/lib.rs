//! A sparse, chunked voxel volume with compressed cold storage and a
//! double-buffered edit pipeline.
//!
//! The volume is addressed by 3D integer points and split into fixed-shape
//! chunks. Chunks live in a [`ChunkStore`] either decompressed (a dense voxel
//! array) or as a compressed blob; a per-cycle maintenance pass keeps the
//! total decompressed footprint under a configurable budget. All writes are
//! staged out of place in an [`EditBuffer`] and merged in at a single point
//! per cycle, so concurrent readers always observe the state left by the
//! previous cycle's merge.

use vstd::prelude::*;

pub mod chunk;
pub mod edit_buffer;
pub mod entries;
pub mod geom;
pub mod map;
pub mod store;
pub mod world;

pub use chunk::{default_array, ChunkArray, ChunkRepr, CodecError};
pub use edit_buffer::{DirtyChunks, EditBuffer};
pub use geom::{ChunkShape, Extent3i, Point3i};
pub use map::{default_chunk_map, VoxelMap, VoxelPalette};
pub use store::{ChunkStore, LocalChunkCache};
pub use world::{ChunkCacheConfig, VoxelWorld};

verus! {

/// A voxel type usable with a [`VoxelPalette`]: a copyable value that reports
/// an integer index into the palette's metadata table.
pub trait Voxel: Copy {
    /// The palette index this voxel reports, as seen by specifications.
    spec fn type_index_spec(self) -> int;

    /// Returns the index into the palette's metadata table for this voxel's type.
    fn get_type_index(&self) -> (r: usize)
        ensures
            r as int == self.type_index_spec(),
    ;
}

/// The concrete voxel stored by [`ChunkStore`]: a bare palette type index.
/// Index 0 is the default (empty) voxel type.
#[derive(Clone, Copy, PartialEq, Eq, Structural, Debug)]
pub struct TypedVoxel {
    pub type_index: u8,
}

impl TypedVoxel {
    /// The default voxel: type index 0, the value that fills unstored space.
    pub open spec fn default_spec() -> TypedVoxel {
        TypedVoxel { type_index: 0 }
    }

    /// Whether this voxel equals the default voxel.
    pub open spec fn is_default(self) -> bool {
        self.type_index == 0
    }
}

impl Default for TypedVoxel {
    fn default() -> (r: TypedVoxel)
        ensures
            r == TypedVoxel::default_spec(),
    {
        TypedVoxel { type_index: 0 }
    }
}

impl Voxel for TypedVoxel {
    open spec fn type_index_spec(self) -> int {
        self.type_index as int
    }

    fn get_type_index(&self) -> (r: usize) {
        self.type_index as usize
    }
}

} // verus!
