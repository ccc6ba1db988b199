//! The voxel map: one chunk store and the palette that gives each voxel
//! type its metadata.

use vstd::prelude::*;

use crate::{TypedVoxel, Voxel};
use crate::geom::{ChunkShape, Point3i};
use crate::store::{ChunkStore, LocalChunkCache};

verus! {

/// An ordered table of per-type metadata, indexed by the type index a voxel
/// reports. An in-range index is the caller's obligation: an out-of-range
/// index is a programming error, not a runtime condition.
pub struct VoxelPalette<I> {
    pub infos: Vec<I>,
}

impl<I> VoxelPalette<I> {
    /// Looks up the metadata for `voxel`'s type.
    pub fn get_voxel_type_info<V: Voxel>(&self, voxel: V) -> (r: &I)
        requires
            0 <= voxel.type_index_spec() < self.infos@.len(),
        ensures
            *r == self.infos@[voxel.type_index_spec()],
    {
        &self.infos[voxel.get_type_index()]
    }
}

/// The source of truth for the voxels of one map: a sparse chunk store plus
/// the palette for the voxel type it holds.
pub struct VoxelMap<I> {
    pub voxels: ChunkStore,
    pub palette: VoxelPalette<I>,
}

impl<I> VoxelMap<I> {
    /// The store is well-formed.
    pub open spec fn wf(self) -> bool {
        self.voxels.wf()
    }

    /// Reads the voxel at `p` through a worker-private cache, never touching
    /// the shared store (see [`ChunkStore::read_voxel`]).
    pub fn read_voxel(&self, cache: &mut LocalChunkCache, p: Point3i) -> (v: TypedVoxel)
        requires
            self.wf(),
            self.voxels.coherent_cache(*old(cache)),
            p.in_world(),
        ensures
            v == self.voxels.voxel_at(p),
            self.voxels.coherent_cache(*final(cache)),
    {
        self.voxels.read_voxel(cache, p)
    }

    /// The metadata of the voxel stored at `p`, read through `cache`.
    pub fn voxel_info_at(&self, cache: &mut LocalChunkCache, p: Point3i) -> (r: &I)
        requires
            self.wf(),
            self.voxels.coherent_cache(*old(cache)),
            p.in_world(),
            0 <= self.voxels.voxel_at(p).type_index_spec() < self.palette.infos@.len(),
        ensures
            *r == self.palette.infos@[self.voxels.voxel_at(p).type_index_spec()],
            self.voxels.coherent_cache(*final(cache)),
    {
        let v = self.voxels.read_voxel(cache, p);
        self.palette.get_voxel_type_info(v)
    }
}

/// Creates an empty chunk store with the given chunk shape: every key reads
/// as default-filled until written.
pub fn default_chunk_map(chunk_shape: ChunkShape) -> (r: ChunkStore)
    requires
        chunk_shape.wf(),
    ensures
        r.wf(),
        r.chunk_shape == chunk_shape,
        forall|k: Point3i| !r.has_chunk(k),
{
    ChunkStore::new(chunk_shape)
}

} // verus!
