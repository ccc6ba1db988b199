//! The top-level owner of a voxel world: the map, the live edit buffer, and
//! the cache budget, with the per-cycle maintenance sequence.
//!
//! A driver calls the editing methods during a cycle and then
//! [`VoxelWorld::process_cycle`] exactly once per cycle, handing over every
//! worker's local cache. The cycle runs its four stages in a fixed order —
//! flush the local caches, remove now-empty chunks, merge the edit buffer,
//! compress over-budget cache entries — so stale cached copies never shadow
//! this cycle's edits, re-filled chunks are not deleted by a stale scan, and
//! compression sees the final, merged state.

use vstd::prelude::*;

use crate::TypedVoxel;
use crate::chunk::{all_default_seq, ChunkArray};
use crate::edit_buffer::{edit_applied, key_in_moore, merged_into, DirtyChunks, EditBuffer};
use crate::geom::{ChunkShape, Extent3i, Point3i};
use crate::map::{VoxelMap, VoxelPalette};
use crate::store::{
    lemma_same_chunks_trans, lemma_same_chunks_voxel, ChunkStore, LocalChunkCache,
};

verus! {

/// The memory budget for decompressed chunks held by the shared store. It
/// may be changed at any time and takes effect at the next cycle's
/// compression stage.
#[derive(Clone, Copy, PartialEq, Eq, Structural, Debug)]
pub struct ChunkCacheConfig {
    pub max_cached_bytes: usize,
}

/// One voxel world: the shared map, the cycle's edit buffer, and the cache
/// budget.
pub struct VoxelWorld<I> {
    pub map: VoxelMap<I>,
    pub edit_buffer: EditBuffer,
    pub cache_config: ChunkCacheConfig,
}

impl<I> VoxelWorld<I> {
    /// Well-formed: map and buffer agree on the chunk shape.
    pub open spec fn wf(self) -> bool {
        self.map.wf() && self.edit_buffer.wf() && self.edit_buffer.chunk_shape
            == self.map.voxels.chunk_shape
    }

    /// The chunk shape shared by the store and the buffer.
    pub open spec fn shape(self) -> ChunkShape {
        self.map.voxels.chunk_shape
    }

    /// What a point of the world will read as after the next merge: the
    /// buffered edit if one covers it, else what the store holds now.
    pub open spec fn staged_voxel_at(self, p: Point3i) -> TypedVoxel {
        let k = self.shape().key_of(p);
        if self.edit_buffer.has_chunk(k) {
            self.edit_buffer.content_at(k)[self.shape().offset_of(p)]
        } else {
            self.map.voxels.voxel_at(p)
        }
    }

    /// Creates a world with an empty store and an empty edit buffer.
    pub fn new(chunk_shape: ChunkShape, cache_config: ChunkCacheConfig, palette: VoxelPalette<I>)
        -> (r: VoxelWorld<I>)
        requires
            chunk_shape.wf(),
        ensures
            r.wf(),
            r.shape() == chunk_shape,
            r.cache_config == cache_config,
            forall|k: Point3i| !r.map.voxels.has_chunk(k),
            forall|k: Point3i| !r.edit_buffer.has_chunk(k),
            forall|k: Point3i| !r.edit_buffer.dirty_has(k),
            r.map.palette == palette,
    {
        VoxelWorld {
            map: VoxelMap { voxels: ChunkStore::new(chunk_shape), palette },
            edit_buffer: EditBuffer::new(chunk_shape),
            cache_config,
        }
    }

    /// Reads the voxel at `p` through the worker's private cache. The world
    /// is untouched: reads observe the state left by the previous cycle's
    /// merge, never this cycle's buffered edits.
    pub fn read_voxel(&self, cache: &mut LocalChunkCache, p: Point3i) -> (v: TypedVoxel)
        requires
            self.wf(),
            self.map.voxels.coherent_cache(*old(cache)),
            p.in_world(),
        ensures
            v == self.map.voxels.voxel_at(p),
            self.map.voxels.coherent_cache(*final(cache)),
    {
        self.map.read_voxel(cache, p)
    }

    /// Runs `edit_func` on every voxel of `extent`, out of place in the edit
    /// buffer. The map itself does not change: concurrent readers are
    /// isolated from this edit until the cycle's merge. Does not mark the
    /// neighbors of edited chunks.
    pub fn edit_extent<F: Fn(Point3i, TypedVoxel) -> TypedVoxel>(
        &mut self,
        extent: Extent3i,
        edit_func: F,
    )
        requires
            old(self).wf(),
            extent.wf(),
            forall|p: Point3i, v: TypedVoxel|
                extent.contains(p) ==> call_requires(edit_func, (p, v)),
        ensures
            final(self).wf(),
            final(self).map == old(self).map,
            final(self).cache_config == old(self).cache_config,
            forall|k: Point3i|
                final(self).edit_buffer.dirty_has(k) == (old(self).edit_buffer.dirty_has(k)
                    || extent.overlaps_key(old(self).shape(), k)),
            forall|k: Point3i|
                final(self).edit_buffer.has_chunk(k) == (old(self).edit_buffer.has_chunk(k)
                    || extent.overlaps_key(old(self).shape(), k)),
            forall|k: Point3i|
                extent.overlaps_key(old(self).shape(), k) ==> edit_applied(
                    edit_func,
                    old(self).shape(),
                    k,
                    extent,
                    old(self).edit_buffer.source_content(old(self).map.voxels, k),
                    final(self).edit_buffer.content_at(k),
                ),
            forall|k: Point3i|
                !extent.overlaps_key(old(self).shape(), k) && old(self).edit_buffer.has_chunk(k)
                    ==> final(self).edit_buffer.content_at(k) == old(self).edit_buffer.content_at(
                    k,
                ),
    {
        self.edit_buffer.edit_voxels_out_of_place(&self.map.voxels, extent, edit_func, false);
    }

    /// Runs `edit_func` on every voxel of `extent`, out of place in the edit
    /// buffer, and marks every edited chunk and its whole Moore neighborhood
    /// dirty. The map itself does not change.
    pub fn edit_extent_and_touch_neighbors<F: Fn(Point3i, TypedVoxel) -> TypedVoxel>(
        &mut self,
        extent: Extent3i,
        edit_func: F,
    )
        requires
            old(self).wf(),
            extent.wf(),
            forall|p: Point3i, v: TypedVoxel|
                extent.contains(p) ==> call_requires(edit_func, (p, v)),
        ensures
            final(self).wf(),
            final(self).map == old(self).map,
            final(self).cache_config == old(self).cache_config,
            forall|k: Point3i|
                final(self).edit_buffer.dirty_has(k) == (old(self).edit_buffer.dirty_has(k)
                    || extent.in_dirty_range(old(self).shape(), true, k)),
            forall|k: Point3i|
                final(self).edit_buffer.has_chunk(k) == (old(self).edit_buffer.has_chunk(k)
                    || extent.overlaps_key(old(self).shape(), k)),
            forall|k: Point3i|
                extent.overlaps_key(old(self).shape(), k) ==> edit_applied(
                    edit_func,
                    old(self).shape(),
                    k,
                    extent,
                    old(self).edit_buffer.source_content(old(self).map.voxels, k),
                    final(self).edit_buffer.content_at(k),
                ),
            forall|k: Point3i|
                !extent.overlaps_key(old(self).shape(), k) && old(self).edit_buffer.has_chunk(k)
                    ==> final(self).edit_buffer.content_at(k) == old(self).edit_buffer.content_at(
                    k,
                ),
    {
        self.edit_buffer.edit_voxels_out_of_place(&self.map.voxels, extent, edit_func, true);
    }

    /// Installs `chunk` as the buffered working copy for `chunk_key` and
    /// marks it dirty. The map itself does not change.
    pub fn insert_chunk(&mut self, chunk_key: Point3i, chunk: ChunkArray)
        requires
            old(self).wf(),
            chunk_key.in_key_range(),
            chunk.data@.len() == old(self).shape().volume(),
        ensures
            final(self).wf(),
            final(self).map == old(self).map,
            final(self).cache_config == old(self).cache_config,
            final(self).edit_buffer.has_chunk(chunk_key),
            final(self).edit_buffer.content_at(chunk_key) == chunk.data@,
            forall|k2: Point3i|
                k2 != chunk_key ==> final(self).edit_buffer.has_chunk(k2) == old(self).edit_buffer.has_chunk(k2),
            forall|k2: Point3i|
                k2 != chunk_key && old(self).edit_buffer.has_chunk(k2) ==> final(self).edit_buffer.content_at(k2) == old(self).edit_buffer.content_at(k2),
            forall|k2: Point3i|
                final(self).edit_buffer.dirty_has(k2) == (old(self).edit_buffer.dirty_has(k2)
                    || k2 == chunk_key),
    {
        self.edit_buffer.insert_chunk(false, chunk_key, chunk);
    }

    /// Installs `chunk` as the buffered working copy for `chunk_key` and
    /// marks it and its whole Moore neighborhood dirty. The map itself does
    /// not change.
    pub fn insert_chunk_and_touch_neighbors(&mut self, chunk_key: Point3i, chunk: ChunkArray)
        requires
            old(self).wf(),
            chunk_key.in_key_range(),
            chunk.data@.len() == old(self).shape().volume(),
        ensures
            final(self).wf(),
            final(self).map == old(self).map,
            final(self).cache_config == old(self).cache_config,
            final(self).edit_buffer.has_chunk(chunk_key),
            final(self).edit_buffer.content_at(chunk_key) == chunk.data@,
            forall|k2: Point3i|
                k2 != chunk_key ==> final(self).edit_buffer.has_chunk(k2) == old(self).edit_buffer.has_chunk(k2),
            forall|k2: Point3i|
                k2 != chunk_key && old(self).edit_buffer.has_chunk(k2) ==> final(self).edit_buffer.content_at(k2) == old(self).edit_buffer.content_at(k2),
            forall|k2: Point3i|
                final(self).edit_buffer.dirty_has(k2) == (old(self).edit_buffer.dirty_has(k2)
                    || key_in_moore(chunk_key, true, k2)),
    {
        self.edit_buffer.insert_chunk(true, chunk_key, chunk);
    }

    /// Runs one full cycle, in the fixed stage order: flush every handed-in
    /// local cache into the store, remove chunks that read as all-default,
    /// merge the edit buffer into the store (replacing it with a fresh one),
    /// and compress decompressed chunks down to the configured budget.
    /// Returns the cycle's dirty-chunk report.
    pub fn process_cycle(&mut self, local_caches: Vec<LocalChunkCache>) -> (r: DirtyChunks)
        requires
            old(self).wf(),
            forall|j: int|
                0 <= j < local_caches@.len() ==> old(self).map.voxels.coherent_cache(
                    #[trigger] local_caches@[j],
                ),
        ensures
            final(self).wf(),
            final(self).shape() == old(self).shape(),
            final(self).cache_config == old(self).cache_config,
            final(self).map.palette == old(self).map.palette,
            // the buffer is replaced by a fresh, empty one
            forall|k: Point3i| !final(self).edit_buffer.has_chunk(k),
            forall|k: Point3i| !final(self).edit_buffer.dirty_has(k),
            // the report is exactly what this cycle's buffer recorded
            r.wf(),
            forall|k: Point3i| r.edited_has(k) == old(self).edit_buffer.has_chunk(k),
            forall|k: Point3i| r.dirty_has(k) == old(self).edit_buffer.dirty_has(k),
            // which chunks the store holds afterwards: the merged edits,
            // plus the old chunks that were not all-default
            forall|k: Point3i|
                final(self).map.voxels.has_chunk(k) == (old(self).edit_buffer.has_chunk(k) || (
                old(self).map.voxels.has_chunk(k) && !all_default_seq(
                    old(self).map.voxels.content_at(k),
                ))),
            // every voxel reads as staged: the buffered edit where one
            // covers it, the previous state elsewhere
            forall|p: Point3i|
                p.in_world() ==> final(self).map.voxels.voxel_at(p) == old(self).staged_voxel_at(
                    p,
                ),
            // the decompressed footprint is within budget
            final(self).map.voxels.cached_bytes() <= old(self).cache_config.max_cached_bytes,
    {
        let ghost w0 = *self;
        let ghost s0 = self.map.voxels;
        // Stage 1: fold each worker's cache into the shared store.
        chunk_cache_flusher_system(&mut self.map, local_caches);
        // Stage 2: drop chunks that read as all-default everywhere.
        let ghost s1 = self.map.voxels;
        self.map.voxels.remove_if_empty();
        let ghost s2 = self.map.voxels;
        // Stage 3: merge the edit buffer, swapping in a fresh one.
        let mut r = DirtyChunks::new();
        double_buffering_system(&mut self.map, &mut self.edit_buffer, &mut r);
        let ghost s3 = self.map.voxels;
        proof {
            assert(merged_into(w0.edit_buffer, s2, s3));
        }
        // Stage 4: compress back down to the configured budget.
        let budget = self.cache_config.max_cached_bytes;
        self.map.voxels.compress_excess(budget);
        proof {
            let buf = w0.edit_buffer;
            assert(s0.same_chunks(s1));
            assert forall|k: Point3i|
                final(self).map.voxels.has_chunk(k) == (buf.has_chunk(k) || (s0.has_chunk(k)
                    && !all_default_seq(s0.content_at(k)))) by {
                assert(self.map.voxels.has_chunk(k) == s3.has_chunk(k));
                assert(s3.has_chunk(k) == (s2.has_chunk(k) || buf.has_chunk(k)));
                assert(s2.has_chunk(k) == (s1.has_chunk(k) && !all_default_seq(
                    s1.content_at(k),
                )));
                assert(s1.has_chunk(k) == s0.has_chunk(k));
                if s0.has_chunk(k) {
                    assert(s1.content_at(k) == s0.content_at(k));
                }
            }
            assert forall|p: Point3i| p.in_world() implies final(self).map.voxels.voxel_at(p)
                == w0.staged_voxel_at(p) by {
                lemma_same_chunks_voxel(s3, self.map.voxels, p);
                let k = s0.chunk_shape.key_of(p);
                crate::geom::lemma_point_decompose(s0.chunk_shape, p);
                if buf.has_chunk(k) {
                    assert(s3.content_at(k) == buf.content_at(k));
                    assert(s3.has_chunk(k));
                } else {
                    assert(s3.has_chunk(k) == s2.has_chunk(k));
                    if s2.has_chunk(k) {
                        assert(s3.content_at(k) == s2.content_at(k));
                    }
                    assert(s2.voxel_at(p) == s1.voxel_at(p));
                    lemma_same_chunks_voxel(s0, s1, p);
                    assert(s3.voxel_at(p) == s2.voxel_at(p));
                }
            }
        }
        r
    }
}

/// Folds every worker's local chunk cache into the shared map's store: the
/// once-per-cycle sync point after which the caches' decompressed copies
/// live in the store. Chunk contents never change.
pub fn chunk_cache_flusher_system<I>(
    voxel_map: &mut VoxelMap<I>,
    local_caches: Vec<LocalChunkCache>,
)
    requires
        old(voxel_map).wf(),
        forall|j: int|
            0 <= j < local_caches@.len() ==> old(voxel_map).voxels.coherent_cache(
                #[trigger] local_caches@[j],
            ),
    ensures
        final(voxel_map).wf(),
        final(voxel_map).voxels.chunk_shape == old(voxel_map).voxels.chunk_shape,
        old(voxel_map).voxels.same_chunks(final(voxel_map).voxels),
        final(voxel_map).voxels.num_chunks() == old(voxel_map).voxels.num_chunks(),
        final(voxel_map).palette == old(voxel_map).palette,
        // The merging-in itself: every chunk a handed-in cache held a copy
        // of ends up decompressed in the shared store.
        forall|j: int, k: Point3i|
            0 <= j < local_caches@.len() && #[trigger] local_caches@[j].has(k)
                ==> final(voxel_map).voxels.chunks.val(k).is_decompressed(),
{
    let ghost s0 = voxel_map.voxels;
    let mut caches = local_caches;
    while caches.len() > 0
        invariant
            voxel_map.wf(),
            voxel_map.voxels.chunk_shape == s0.chunk_shape,
            s0.same_chunks(voxel_map.voxels),
            voxel_map.voxels.num_chunks() == s0.num_chunks(),
            voxel_map.palette == old(voxel_map).palette,
            forall|j: int|
                0 <= j < caches@.len() ==> voxel_map.voxels.coherent_cache(
                    #[trigger] caches@[j],
                ),
            caches@.len() <= local_caches@.len(),
            forall|j: int| 0 <= j < caches@.len() ==> #[trigger] caches@[j] == local_caches@[j],
            forall|j: int, k: Point3i|
                caches@.len() <= j < local_caches@.len() && #[trigger] local_caches@[j].has(k)
                    ==> voxel_map.voxels.has_chunk(k) && voxel_map.voxels.chunks.val(
                    k,
                ).is_decompressed(),
        decreases caches@.len(),
    {
        let ghost precaches = caches@;
        let ghost prestore = voxel_map.voxels;
        match caches.pop() {
            None => {
                proof {
                    assert(false);
                }
            },
            Some(c) => {
                proof {
                    assert(precaches[precaches.len() - 1] == c);
                    assert(local_caches@[precaches.len() - 1] == c);
                }
                voxel_map.voxels.flush_cache(c);
                proof {
                    lemma_same_chunks_trans(s0, prestore, voxel_map.voxels);
                    assert forall|j: int| 0 <= j < caches@.len() implies #[trigger] caches@[j]
                        == local_caches@[j] by {
                        assert(caches@[j] == precaches[j]);
                    }
                    assert forall|j: int|
                        0 <= j < caches@.len() implies voxel_map.voxels.coherent_cache(
                        #[trigger] caches@[j],
                    ) by {
                        assert(caches@[j] == precaches[j]);
                        assert(prestore.coherent_cache(caches@[j]));
                        assert forall|k: Point3i| #[trigger] caches@[j].has(k) implies
                            voxel_map.voxels.has_chunk(k) && caches@[j].content(k)
                            == voxel_map.voxels.content_at(k) by {
                            assert(prestore.has_chunk(k));
                            assert(prestore.content_at(k) == caches@[j].content(k));
                        }
                    }
                    assert forall|j: int, k: Point3i|
                        caches@.len() <= j < local_caches@.len() && #[trigger] local_caches@[j].has(
                            k,
                        ) implies voxel_map.voxels.has_chunk(k) && voxel_map.voxels.chunks.val(
                        k,
                    ).is_decompressed() by {
                        if j == precaches.len() - 1 {
                            assert(c.has(k));
                            assert(prestore.has_chunk(k));
                        } else {
                            assert(prestore.has_chunk(k));
                            assert(prestore.chunks.val(k).is_decompressed());
                        }
                    }
                }
            },
        }
    }
}

/// Swaps in a fresh edit buffer, merges the old one into the map, and
/// publishes the cycle's dirty-chunk report.
pub fn double_buffering_system<I>(
    voxel_map: &mut VoxelMap<I>,
    edit_buffer: &mut EditBuffer,
    dirty_chunks: &mut DirtyChunks,
)
    requires
        old(voxel_map).wf(),
        old(edit_buffer).wf(),
        old(edit_buffer).chunk_shape == old(voxel_map).voxels.chunk_shape,
    ensures
        final(voxel_map).wf(),
        final(voxel_map).voxels.chunk_shape == old(voxel_map).voxels.chunk_shape,
        final(voxel_map).palette == old(voxel_map).palette,
        merged_into(*old(edit_buffer), old(voxel_map).voxels, final(voxel_map).voxels),
        // Buffered chunks are installed in decompressed form; entries at
        // untouched keys keep their exact stored representation.
        forall|k: Point3i|
            old(edit_buffer).has_chunk(k) ==> (#[trigger] final(voxel_map).voxels.chunks.val(
                k,
            )).is_decompressed(),
        forall|k: Point3i|
            !old(edit_buffer).has_chunk(k) && old(voxel_map).voxels.has_chunk(k)
                ==> final(voxel_map).voxels.chunks.val(k) == old(voxel_map).voxels.chunks.val(k),
        final(edit_buffer).wf(),
        final(edit_buffer).chunk_shape == old(edit_buffer).chunk_shape,
        forall|k: Point3i| !final(edit_buffer).has_chunk(k),
        forall|k: Point3i| !final(edit_buffer).dirty_has(k),
        final(dirty_chunks).wf(),
        forall|k: Point3i| final(dirty_chunks).edited_has(k) == old(edit_buffer).has_chunk(k),
        forall|k: Point3i| final(dirty_chunks).dirty_has(k) == old(edit_buffer).dirty_has(k),
{
    let shape = edit_buffer.chunk_shape;
    let mut buffer = EditBuffer::new(shape);
    core::mem::swap(&mut buffer, edit_buffer);
    *dirty_chunks = buffer.merge_edits(&mut voxel_map.voxels);
}

} // verus!
