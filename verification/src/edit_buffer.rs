//! The out-of-place edit buffer and the dirty-chunk report.
//!
//! All voxel edits of a cycle are staged here, against private copies of the
//! chunks they touch, and merged into the shared store at one point per
//! cycle. A chunk is copied from upstream at most once per buffer lifetime:
//! later edits of the same chunk work on the buffered copy. The buffer also
//! records which chunk keys were edited and which are dirty for downstream
//! processing (the edited keys, widened to the Moore neighborhood when
//! `touch_neighbors` is requested).

use vstd::prelude::*;

use crate::TypedVoxel;
use crate::chunk::{default_array, ChunkArray};
use crate::entries::{seq_key_index, KeyList, KeyedVec};
use crate::geom::{chunk_key, chunk_point, ChunkShape, Extent3i, Point3i};
use crate::store::ChunkStore;

verus! {

/// Whether `k` lies in the inclusive box of keys `[lo, hi]`.
pub open spec fn in_box(lo: Point3i, hi: Point3i, k: Point3i) -> bool {
    lo.x <= k.x <= hi.x && lo.y <= k.y <= hi.y && lo.z <= k.z <= hi.z
}

/// Whether `k2` is `k` itself or, when `with_neighbors` is set, any of its
/// 26 Moore neighbors.
pub open spec fn key_in_moore(k: Point3i, with_neighbors: bool, k2: Point3i) -> bool {
    if with_neighbors {
        k.x - 1 <= k2.x <= k.x + 1 && k.y - 1 <= k2.y <= k.y + 1 && k.z - 1 <= k2.z <= k.z + 1
    } else {
        k2 == k
    }
}

/// Whether `k` occurs in `s`.
pub open spec fn key_seq_has(s: Seq<Point3i>, k: Point3i) -> bool {
    exists|i: int| 0 <= i < s.len() && s[i] == k
}

/// Collects every key of the inclusive box `[lo, hi]`, each exactly once.
#[verifier::loop_isolation(false)]
fn keys_in_box(lo: Point3i, hi: Point3i) -> (r: Vec<Point3i>)
    requires
        -0x20_0000 <= lo.x <= 0x20_0000,
        -0x20_0000 <= lo.y <= 0x20_0000,
        -0x20_0000 <= lo.z <= 0x20_0000,
        -0x20_0000 <= hi.x <= 0x20_0000,
        -0x20_0000 <= hi.y <= 0x20_0000,
        -0x20_0000 <= hi.z <= 0x20_0000,
    ensures
        forall|k: Point3i| key_seq_has(r@, k) == in_box(lo, hi, k),
        forall|i: int, j: int| 0 <= i < j < r@.len() ==> r@[i] != r@[j],
        forall|i: int| 0 <= i < r@.len() ==> in_box(lo, hi, #[trigger] r@[i]),
{
    let mut out: Vec<Point3i> = Vec::new();
    let mut z = lo.z;
    while z <= hi.z
        invariant
            lo.z <= z <= hi.z + 1 || z == lo.z,
            -0x20_0001 <= z <= 0x20_0001,
            forall|k: Point3i| key_seq_has(out@, k) == (in_box(lo, hi, k) && k.z < z),
            forall|i: int, j: int| 0 <= i < j < out@.len() ==> out@[i] != out@[j],
            forall|i: int| 0 <= i < out@.len() ==> in_box(lo, hi, #[trigger] out@[i]),
        decreases hi.z - z + 1,
    {
        let mut y = lo.y;
        while y <= hi.y
            invariant
                lo.z <= z <= hi.z,
                lo.y <= y <= hi.y + 1 || y == lo.y,
                -0x20_0001 <= y <= 0x20_0001,
                forall|k: Point3i|
                    key_seq_has(out@, k) == (in_box(lo, hi, k) && (k.z < z || (k.z == z && k.y
                        < y))),
                forall|i: int, j: int| 0 <= i < j < out@.len() ==> out@[i] != out@[j],
                forall|i: int| 0 <= i < out@.len() ==> in_box(lo, hi, #[trigger] out@[i]),
            decreases hi.y - y + 1,
        {
            let mut x = lo.x;
            while x <= hi.x
                invariant
                    lo.z <= z <= hi.z,
                    lo.y <= y <= hi.y,
                    lo.x <= x <= hi.x + 1 || x == lo.x,
                    -0x20_0001 <= x <= 0x20_0001,
                    forall|k: Point3i|
                        key_seq_has(out@, k) == (in_box(lo, hi, k) && (k.z < z || (k.z == z && (
                        k.y < y || (k.y == y && k.x < x))))),
                    forall|i: int, j: int| 0 <= i < j < out@.len() ==> out@[i] != out@[j],
                    forall|i: int| 0 <= i < out@.len() ==> in_box(lo, hi, #[trigger] out@[i]),
                decreases hi.x - x + 1,
            {
                let ghost pre = out@;
                let k = Point3i { x, y, z };
                out.push(k);
                proof {
                    assert(out@[pre.len() as int] == k);
                    assert forall|k2: Point3i|
                        key_seq_has(out@, k2) == (in_box(lo, hi, k2) && (k2.z < z || (k2.z == z
                            && (k2.y < y || (k2.y == y && k2.x < x + 1))))) by {
                        if key_seq_has(out@, k2) {
                            let i = choose|i: int| 0 <= i < out@.len() && out@[i] == k2;
                            if i < pre.len() {
                                assert(key_seq_has(pre, k2));
                            }
                        }
                        if in_box(lo, hi, k2) && (k2.z < z || (k2.z == z && (k2.y < y || (k2.y == y
                            && k2.x < x + 1)))) {
                            if k2 == k {
                                assert(out@[pre.len() as int] == k2);
                            } else {
                                assert(key_seq_has(pre, k2));
                                let i = choose|i: int| 0 <= i < pre.len() && pre[i] == k2;
                                assert(out@[i] == k2);
                            }
                        }
                    }
                }
                x += 1;
            }
            y += 1;
        }
        z += 1;
    }
    out
}

/// The per-cycle report of change: the chunk keys written through the
/// buffer, and the possibly larger set flagged dirty for downstream
/// processing.
pub struct DirtyChunks {
    pub edited_chunk_keys: Vec<Point3i>,
    pub dirty_chunk_keys: KeyList,
}

impl DirtyChunks {
    /// Keys occur once each in the edited list, and the dirty set is a set.
    pub open spec fn wf(self) -> bool {
        (forall|i: int, j: int|
            0 <= i < j < self.edited_chunk_keys@.len() ==> self.edited_chunk_keys@[i]
                != self.edited_chunk_keys@[j]) && self.dirty_chunk_keys.wf()
    }

    /// Whether `k` was edited directly.
    pub open spec fn edited_has(self, k: Point3i) -> bool {
        key_seq_has(self.edited_chunk_keys@, k)
    }

    /// Whether `k` is dirty.
    pub open spec fn dirty_has(self, k: Point3i) -> bool {
        self.dirty_chunk_keys.has(k)
    }

    /// An empty report.
    pub fn new() -> (r: DirtyChunks)
        ensures
            r.wf(),
            forall|k: Point3i| !r.edited_has(k),
            forall|k: Point3i| !r.dirty_has(k),
    {
        DirtyChunks { edited_chunk_keys: Vec::new(), dirty_chunk_keys: KeyList::new() }
    }

    /// Number of directly edited chunk keys.
    pub fn num_edited(&self) -> (r: usize)
        ensures
            r == self.edited_chunk_keys@.len(),
    {
        self.edited_chunk_keys.len()
    }

    /// Whether `k` was edited directly.
    pub fn edited_contains(&self, k: Point3i) -> (r: bool)
        ensures
            r == self.edited_has(k),
    {
        let n = self.edited_chunk_keys.len();
        let mut i: usize = 0;
        while i < n
            invariant
                n == self.edited_chunk_keys@.len(),
                i <= n,
                forall|j: int| 0 <= j < i ==> self.edited_chunk_keys@[j] != k,
            decreases n - i,
        {
            let e = &self.edited_chunk_keys[i];
            if e.x == k.x && e.y == k.y && e.z == k.z {
                proof {
                    assert(self.edited_chunk_keys@[i as int] == k);
                }
                return true;
            }
            i += 1;
        }
        false
    }

    /// Whether `k` is dirty.
    pub fn dirty_contains(&self, k: Point3i) -> (r: bool)
        ensures
            r == self.dirty_has(k),
    {
        self.dirty_chunk_keys.contains(k)
    }

    /// Number of dirty chunk keys.
    pub fn num_dirty(&self) -> (r: usize)
        ensures
            r == self.dirty_chunk_keys.keys@.len(),
    {
        self.dirty_chunk_keys.keys.len()
    }
}

/// Stages all voxel edits of one cycle, out of place. Chunks touched by an
/// edit are copied in from upstream at most once per buffer lifetime and
/// then edited privately; [`EditBuffer::merge_edits`] moves them into the
/// destination store and reports what changed.
pub struct EditBuffer {
    pub chunk_shape: ChunkShape,
    pub edited_voxels: KeyedVec<ChunkArray>,
    pub dirty_chunk_keys: KeyList,
}

/// Whether `post` is `pre` with `f` applied to every voxel of chunk `k`
/// that falls inside `extent`, all other voxels unchanged.
pub open spec fn edit_applied<F: Fn(Point3i, TypedVoxel) -> TypedVoxel>(
    f: F,
    s: ChunkShape,
    k: Point3i,
    extent: Extent3i,
    pre: Seq<TypedVoxel>,
    post: Seq<TypedVoxel>,
) -> bool {
    post.len() == pre.len() && forall|i: int|
        0 <= i < pre.len() ==> if extent.contains(s.point_at(k, i)) {
            call_ensures(f, (s.point_at(k, i), pre[i]), post[i])
        } else {
            post[i] == pre[i]
        }
}

impl EditBuffer {
    /// Usable shape, unique keys, and every buffered array chunk-sized.
    pub open spec fn wf(self) -> bool {
        self.chunk_shape.wf() && self.edited_voxels.wf() && self.dirty_chunk_keys.wf()
            && forall|k: Point3i|
            self.edited_voxels.has(k) ==> (#[trigger] self.edited_voxels.val(k)).data@.len()
                == self.chunk_shape.volume()
    }

    /// Whether the buffer holds a working copy for chunk `k`.
    pub open spec fn has_chunk(self, k: Point3i) -> bool {
        self.edited_voxels.has(k)
    }

    /// The working copy's voxels (meaningful only when present).
    pub open spec fn content_at(self, k: Point3i) -> Seq<TypedVoxel> {
        self.edited_voxels.val(k).data@
    }

    /// Whether `k` is marked dirty.
    pub open spec fn dirty_has(self, k: Point3i) -> bool {
        self.dirty_chunk_keys.has(k)
    }

    /// What an edit of chunk `k` starts from: the buffered copy if the chunk
    /// was touched before in this buffer's lifetime, else the upstream
    /// chunk, else a default-filled chunk.
    pub open spec fn source_content(self, reader: ChunkStore, k: Point3i) -> Seq<TypedVoxel> {
        if self.has_chunk(k) {
            self.content_at(k)
        } else if reader.has_chunk(k) {
            reader.content_at(k)
        } else {
            Seq::new(self.chunk_shape.volume() as nat, |i: int| TypedVoxel::default_spec())
        }
    }

    /// Creates an empty buffer for a store of the given chunk shape. A fresh
    /// one replaces the old every cycle, after the merge.
    pub fn new(chunk_shape: ChunkShape) -> (r: EditBuffer)
        requires
            chunk_shape.wf(),
        ensures
            r.wf(),
            r.chunk_shape == chunk_shape,
            forall|k: Point3i| !r.has_chunk(k),
            forall|k: Point3i| !r.dirty_has(k),
    {
        EditBuffer {
            chunk_shape,
            edited_voxels: KeyedVec::new(),
            dirty_chunk_keys: KeyList::new(),
        }
    }

    /// Marks every key of the box `[lo, hi]` dirty.
    fn mark_dirty_box(&mut self, lo: Point3i, hi: Point3i)
        requires
            old(self).wf(),
            -0x20_0000 <= lo.x <= 0x20_0000,
            -0x20_0000 <= lo.y <= 0x20_0000,
            -0x20_0000 <= lo.z <= 0x20_0000,
            -0x20_0000 <= hi.x <= 0x20_0000,
            -0x20_0000 <= hi.y <= 0x20_0000,
            -0x20_0000 <= hi.z <= 0x20_0000,
        ensures
            final(self).wf(),
            final(self).chunk_shape == old(self).chunk_shape,
            final(self).edited_voxels == old(self).edited_voxels,
            forall|k: Point3i|
                final(self).dirty_has(k) == (old(self).dirty_has(k) || in_box(lo, hi, k)),
    {
        let dkeys = keys_in_box(lo, hi);
        let n = dkeys.len();
        let mut i: usize = 0;
        while i < n
            invariant
                self.wf(),
                self.chunk_shape == old(self).chunk_shape,
                self.edited_voxels == old(self).edited_voxels,
                n == dkeys@.len(),
                i <= n,
                forall|k: Point3i| key_seq_has(dkeys@, k) == in_box(lo, hi, k),
                forall|k: Point3i|
                    self.dirty_has(k) == (old(self).dirty_has(k) || exists|j: int|
                        0 <= j < i && dkeys@[j] == k),
            decreases n - i,
        {
            let k = dkeys[i];
            self.dirty_chunk_keys.add(k);
            proof {
                assert(dkeys@[i as int] == k);
                assert forall|k2: Point3i|
                    self.dirty_has(k2) == (old(self).dirty_has(k2) || exists|j: int|
                        0 <= j < i + 1 && dkeys@[j] == k2) by {
                    if k2 == k {
                        assert(dkeys@[i as int] == k2);
                    }
                }
            }
            i += 1;
        }
        proof {
            assert forall|k: Point3i|
                self.dirty_has(k) == (old(self).dirty_has(k) || in_box(lo, hi, k)) by {
                if in_box(lo, hi, k) {
                    assert(key_seq_has(dkeys@, k));
                    let j = choose|j: int| 0 <= j < dkeys@.len() && dkeys@[j] == k;
                    assert(0 <= j < n && dkeys@[j] == k);
                }
            }
        }
    }

    /// Read-modify-writes every voxel of `extent` in the buffer's working
    /// copies: each overlapping chunk missing from the buffer is first
    /// copied from `reader` (or default-filled if absent upstream), then
    /// `edit_func` maps each voxel of `extent` to its new value. The edited
    /// chunk keys are marked dirty; with `touch_neighbors`, so is their
    /// whole Moore neighborhood. `reader` itself is never changed.
    pub fn edit_voxels_out_of_place<F: Fn(Point3i, TypedVoxel) -> TypedVoxel>(
        &mut self,
        reader: &ChunkStore,
        extent: Extent3i,
        edit_func: F,
        touch_neighbors: bool,
    )
        requires
            old(self).wf(),
            reader.wf(),
            old(self).chunk_shape == reader.chunk_shape,
            extent.wf(),
            forall|p: Point3i, v: TypedVoxel|
                extent.contains(p) ==> call_requires(edit_func, (p, v)),
        ensures
            final(self).wf(),
            final(self).chunk_shape == old(self).chunk_shape,
            forall|k: Point3i|
                final(self).dirty_has(k) == (old(self).dirty_has(k) || extent.in_dirty_range(
                    old(self).chunk_shape,
                    touch_neighbors,
                    k,
                )),
            forall|k: Point3i|
                final(self).has_chunk(k) == (old(self).has_chunk(k) || extent.overlaps_key(
                    old(self).chunk_shape,
                    k,
                )),
            forall|k: Point3i|
                !extent.overlaps_key(old(self).chunk_shape, k) && old(self).has_chunk(k)
                    ==> final(self).content_at(k) == old(self).content_at(k),
            forall|k: Point3i|
                extent.overlaps_key(old(self).chunk_shape, k) ==> edit_applied(
                    edit_func,
                    old(self).chunk_shape,
                    k,
                    extent,
                    old(self).source_content(*reader, k),
                    final(self).content_at(k),
                ),
    {
        let ghost buf0 = *self;
        let shape = self.chunk_shape;
        let lo = chunk_key(&shape, extent.minimum);
        let hi = chunk_key(&shape, extent.maximum);
        let keys = keys_in_box(lo, hi);
        let nk = keys.len();
        proof {
            assert(forall|k: Point3i| in_box(lo, hi, k) == extent.overlaps_key(shape, k));
        }
        // Copy-on-first-touch: materialize every overlapping chunk that the
        // buffer does not hold yet.
        let mut idx: usize = 0;
        while idx < nk
            invariant
                self.wf(),
                self.chunk_shape == shape,
                self.dirty_chunk_keys == buf0.dirty_chunk_keys,
                nk == keys@.len(),
                idx <= nk,
                buf0.wf(),
                buf0.chunk_shape == shape,
                reader.wf(),
                reader.chunk_shape == shape,
                forall|k: Point3i| key_seq_has(keys@, k) == in_box(lo, hi, k),
                forall|i2: int, j2: int| 0 <= i2 < j2 < keys@.len() ==> keys@[i2] != keys@[j2],
                forall|k: Point3i|
                    self.has_chunk(k) == (buf0.has_chunk(k) || exists|j: int|
                        0 <= j < idx && keys@[j] == k),
                forall|k: Point3i|
                    buf0.has_chunk(k) ==> self.content_at(k) == buf0.content_at(k),
                forall|j: int|
                    0 <= j < idx ==> self.content_at(#[trigger] keys@[j]) == buf0.source_content(
                        *reader,
                        keys@[j],
                    ),
            decreases nk - idx,
        {
            let k = keys[idx];
            proof {
                assert(keys@[idx as int] == k);
            }
            if !self.edited_voxels.contains_key(k) {
                let arr = match reader.copy_chunk_without_caching(k) {
                    Some(a) => a,
                    None => default_array(&shape),
                };
                proof {
                    if reader.has_chunk(k) {
                        assert(reader.chunks.val(k).inv(shape));
                    } else {
                        assert(arr.data@ =~= buf0.source_content(*reader, k));
                    }
                }
                self.edited_voxels.insert(k, arr);
            }
            proof {
                assert forall|k2: Point3i|
                    self.has_chunk(k2) == (buf0.has_chunk(k2) || exists|j: int|
                        0 <= j < idx + 1 && keys@[j] == k2) by {
                    if k2 == k {
                        assert(keys@[idx as int] == k2);
                    }
                }
            }
            idx += 1;
        }
        // Apply the edit to every overlapping chunk's working copy.
        let mut idx: usize = 0;
        while idx < nk
            invariant
                self.wf(),
                self.chunk_shape == shape,
                self.dirty_chunk_keys == buf0.dirty_chunk_keys,
                nk == keys@.len(),
                idx <= nk,
                buf0.wf(),
                buf0.chunk_shape == shape,
                reader.wf(),
                reader.chunk_shape == shape,
                extent.wf(),
                forall|p: Point3i, v: TypedVoxel|
                    extent.contains(p) ==> call_requires(edit_func, (p, v)),
                forall|k: Point3i| key_seq_has(keys@, k) == in_box(lo, hi, k),
                forall|i2: int, j2: int| 0 <= i2 < j2 < keys@.len() ==> keys@[i2] != keys@[j2],
                lo == shape.key_of(extent.minimum),
                hi == shape.key_of(extent.maximum),
                forall|k: Point3i| self.has_chunk(k) == (buf0.has_chunk(k) || in_box(lo, hi, k)),
                forall|k: Point3i|
                    !in_box(lo, hi, k) && buf0.has_chunk(k) ==> self.content_at(k)
                        == buf0.content_at(k),
                forall|j: int|
                    0 <= j < idx ==> edit_applied(
                        edit_func,
                        shape,
                        #[trigger] keys@[j],
                        extent,
                        buf0.source_content(*reader, keys@[j]),
                        self.content_at(keys@[j]),
                    ),
                forall|j: int|
                    idx <= j < nk ==> self.content_at(#[trigger] keys@[j]) == buf0.source_content(
                        *reader,
                        keys@[j],
                    ),
            decreases nk - idx,
        {
            let k = keys[idx];
            proof {
                assert(keys@[idx as int] == k);
                assert(in_box(lo, hi, k));
                crate::geom::lemma_key_of_in_range(shape, extent.minimum);
                crate::geom::lemma_key_of_in_range(shape, extent.maximum);
                assert(k.in_key_range());
                assert(self.has_chunk(k));
            }
            let ghost prebuf = *self;
            match self.edited_voxels.find(k) {
                None => {
                    proof {
                        assert(false);
                    }
                },
                Some(i) => {
                    proof {
                        self.edited_voxels.lemma_entry_is_val(i as int);
                    }
                    let (kk, arr) = self.edited_voxels.entries.remove(i);
                    let arr2 = apply_edit_chunk(&shape, k, arr, extent, &edit_func);
                    self.edited_voxels.entries.insert(i, (kk, arr2));
                    proof {
                        assert(self.edited_voxels.entries@ =~= prebuf.edited_voxels.entries@
                            .update(i as int, (kk, arr2)));
                        assert(crate::entries::seq_keys_unique(self.edited_voxels.entries@)) by {
                            assert(forall|a2: int, b2: int|
                                0 <= a2 < b2 < self.edited_voxels.entries@.len()
                                    ==> self.edited_voxels.entries@[a2].0
                                    == prebuf.edited_voxels.entries@[a2].0
                                    && self.edited_voxels.entries@[b2].0
                                    == prebuf.edited_voxels.entries@[b2].0);
                        }
                        crate::entries::lemma_insert_at(
                            prebuf.edited_voxels.entries@,
                            self.edited_voxels.entries@,
                            i as int,
                            kk,
                        );
                        assert(self.content_at(k) == arr2.data@);
                        assert(arr2.data@.len() == shape.volume());
                        assert forall|k2: Point3i| self.edited_voxels.has(k2) implies (
                        #[trigger] self.edited_voxels.val(k2)).data@.len() == shape.volume() by {
                            if k2 != kk {
                                assert(prebuf.edited_voxels.has(k2));
                                assert(prebuf.edited_voxels.val(k2).data@.len() == shape.volume());
                            }
                        }
                        assert(edit_applied(
                            edit_func,
                            shape,
                            k,
                            extent,
                            buf0.source_content(*reader, k),
                            self.content_at(k),
                        ));
                        assert forall|j: int|
                            0 <= j < idx + 1 implies edit_applied(
                            edit_func,
                            shape,
                            #[trigger] keys@[j],
                            extent,
                            buf0.source_content(*reader, keys@[j]),
                            self.content_at(keys@[j]),
                        ) by {
                            if j < idx {
                                assert(keys@[j] != k);
                                assert(self.content_at(keys@[j]) == prebuf.content_at(keys@[j]));
                            }
                        }
                    }
                },
            }
            idx += 1;
        }
        // Mark the dirty range.
        let d: i32 = if touch_neighbors {
            1
        } else {
            0
        };
        proof {
            crate::geom::lemma_key_of_in_range(shape, extent.minimum);
            crate::geom::lemma_key_of_in_range(shape, extent.maximum);
        }
        let dlo = Point3i { x: lo.x - d, y: lo.y - d, z: lo.z - d };
        let dhi = Point3i { x: hi.x + d, y: hi.y + d, z: hi.z + d };
        self.mark_dirty_box(dlo, dhi);
        proof {
            assert(forall|k: Point3i|
                in_box(dlo, dhi, k) == extent.in_dirty_range(shape, touch_neighbors, k));
            assert forall|k: Point3i|
                extent.overlaps_key(shape, k) implies edit_applied(
                edit_func,
                shape,
                k,
                extent,
                buf0.source_content(*reader, k),
                self.content_at(k),
            ) by {
                assert(key_seq_has(keys@, k));
                let j = choose|j: int| 0 <= j < keys@.len() && keys@[j] == k;
                assert(keys@[j] == k);
            }
        }
    }
}

/// Applies `f` to every voxel of `arr` (the working copy of chunk `k`) whose
/// world point falls inside `extent`; all other voxels stay as they are.
#[verifier::loop_isolation(false)]
fn apply_edit_chunk<F: Fn(Point3i, TypedVoxel) -> TypedVoxel>(
    shape: &ChunkShape,
    k: Point3i,
    arr: ChunkArray,
    extent: Extent3i,
    f: &F,
) -> (r: ChunkArray)
    requires
        shape.wf(),
        k.in_key_range(),
        arr.data@.len() == shape.volume(),
        forall|p: Point3i, v: TypedVoxel| extent.contains(p) ==> call_requires(*f, (p, v)),
    ensures
        edit_applied(*f, *shape, k, extent, arr.data@, r.data@),
{
    let mut arr = arr;
    let ghost pre = arr.data@;
    let n = arr.data.len();
    let mut i: usize = 0;
    while i < n
        invariant
            i <= n,
            arr.data@.len() == n,
            forall|j: int|
                0 <= j < i ==> (if extent.contains(shape.point_at(k, j)) {
                    call_ensures(*f, (shape.point_at(k, j), pre[j]), arr.data@[j])
                } else {
                    arr.data@[j] == pre[j]
                }),
            forall|j: int| i <= j < n ==> arr.data@[j] == pre[j],
        decreases n - i,
    {
        let p = chunk_point(shape, k, i);
        if extent.contains_point(p) {
            let v = arr.data[i];
            let nv = f(p, v);
            arr.data.set(i, nv);
        }
        i += 1;
    }
    arr
}

/// Dirty-set exactness for an edit confined to one chunk: without
/// neighbor touching the dirty range is exactly the edited chunk's key;
/// with it, exactly that key and its 26 Moore neighbors.
pub proof fn lemma_single_chunk_dirty_range(
    s: ChunkShape,
    extent: Extent3i,
    k0: Point3i,
    touch_neighbors: bool,
)
    requires
        s.key_of(extent.minimum) == k0,
        s.key_of(extent.maximum) == k0,
    ensures
        forall|k: Point3i| extent.overlaps_key(s, k) == (k == k0),
        forall|k: Point3i|
            extent.in_dirty_range(s, touch_neighbors, k) == key_in_moore(
                k0,
                touch_neighbors,
                k,
            ),
{
}

/// Copy-on-first-touch idempotence: once the buffer holds a working copy of
/// a chunk, any further edit of that chunk starts from the buffered copy —
/// upstream is never consulted again for it, whatever the upstream store
/// holds.
pub proof fn lemma_copy_on_first_touch(buf: EditBuffer, reader: ChunkStore, k: Point3i)
    requires
        buf.has_chunk(k),
    ensures
        buf.source_content(reader, k) == buf.content_at(k),
{
}

/// The relation between a store before and after a buffer is merged into
/// it: buffered chunks overwrite, all other chunks stay as they were.
pub open spec fn merged_into(buf: EditBuffer, pre: ChunkStore, post: ChunkStore) -> bool {
    (forall|k: Point3i| post.has_chunk(k) == (pre.has_chunk(k) || buf.has_chunk(k))) && (forall|
        k: Point3i,
    |
        buf.has_chunk(k) ==> post.content_at(k) == buf.content_at(k)) && (forall|k: Point3i|
        !buf.has_chunk(k) && pre.has_chunk(k) ==> post.content_at(k) == pre.content_at(k))
}

impl EditBuffer {
    /// Installs `chunk` as the working copy for `chunk_key`, overwriting any
    /// prior buffered edits for that key, and marks it dirty — with
    /// `touch_neighbors`, its whole Moore neighborhood too.
    pub fn insert_chunk(&mut self, touch_neighbors: bool, chunk_key: Point3i, chunk: ChunkArray)
        requires
            old(self).wf(),
            chunk_key.in_key_range(),
            chunk.data@.len() == old(self).chunk_shape.volume(),
        ensures
            final(self).wf(),
            final(self).chunk_shape == old(self).chunk_shape,
            final(self).has_chunk(chunk_key),
            final(self).content_at(chunk_key) == chunk.data@,
            forall|k2: Point3i|
                k2 != chunk_key ==> final(self).has_chunk(k2) == old(self).has_chunk(k2),
            forall|k2: Point3i|
                k2 != chunk_key && old(self).has_chunk(k2) ==> final(self).content_at(k2) == old(
                    self,
                ).content_at(k2),
            forall|k2: Point3i|
                final(self).dirty_has(k2) == (old(self).dirty_has(k2) || key_in_moore(
                    chunk_key,
                    touch_neighbors,
                    k2,
                )),
    {
        let d: i32 = if touch_neighbors {
            1
        } else {
            0
        };
        let dlo = Point3i { x: chunk_key.x - d, y: chunk_key.y - d, z: chunk_key.z - d };
        let dhi = Point3i { x: chunk_key.x + d, y: chunk_key.y + d, z: chunk_key.z + d };
        self.mark_dirty_box(dlo, dhi);
        self.edited_voxels.insert(chunk_key, chunk);
        proof {
            assert(forall|k2: Point3i|
                in_box(dlo, dhi, k2) == key_in_moore(chunk_key, touch_neighbors, k2));
        }
    }

    /// Consumes the buffer: moves every working copy into `dst_map`
    /// (overwriting whatever that store held at the key, in decompressed
    /// form) and returns the report of edited and dirty chunk keys. A fresh
    /// buffer must be created for the next cycle.
    pub fn merge_edits(self, dst_map: &mut ChunkStore) -> (r: DirtyChunks)
        requires
            self.wf(),
            old(dst_map).wf(),
            self.chunk_shape == old(dst_map).chunk_shape,
        ensures
            final(dst_map).wf(),
            final(dst_map).chunk_shape == old(dst_map).chunk_shape,
            forall|k: Point3i|
                final(dst_map).has_chunk(k) == (old(dst_map).has_chunk(k) || self.has_chunk(k)),
            forall|k: Point3i|
                self.has_chunk(k) ==> final(dst_map).content_at(k) == self.content_at(k),
            forall|k: Point3i|
                !self.has_chunk(k) && old(dst_map).has_chunk(k) ==> final(dst_map).content_at(k)
                    == old(dst_map).content_at(k),
            forall|k: Point3i|
                self.has_chunk(k) ==> (#[trigger] final(dst_map).chunks.val(
                    k,
                )).is_decompressed(),
            forall|k: Point3i|
                !self.has_chunk(k) && old(dst_map).has_chunk(k) ==> final(dst_map).chunks.val(k)
                    == old(dst_map).chunks.val(k),
            merged_into(self, *old(dst_map), *final(dst_map)),
            r.wf(),
            forall|k: Point3i| r.edited_has(k) == self.has_chunk(k),
            forall|k: Point3i| r.dirty_has(k) == self.dirty_has(k),
    {
        let ghost buf0 = self;
        let EditBuffer { chunk_shape, mut edited_voxels, dirty_chunk_keys } = self;
        // Record the edited keys before draining the buffer.
        let n = edited_voxels.len();
        let mut edited_chunk_keys: Vec<Point3i> = Vec::new();
        let mut i: usize = 0;
        while i < n
            invariant
                edited_voxels == buf0.edited_voxels,
                n == edited_voxels.entries@.len(),
                i <= n,
                buf0.wf(),
                edited_chunk_keys@.len() == i,
                forall|j: int|
                    0 <= j < i ==> edited_chunk_keys@[j] == edited_voxels.entries@[j].0,
            decreases n - i,
        {
            let k = edited_voxels.entries[i].0;
            edited_chunk_keys.push(k);
            i += 1;
        }
        proof {
            assert forall|k: Point3i| key_seq_has(edited_chunk_keys@, k) == buf0.has_chunk(
                k,
            ) by {
                if key_seq_has(edited_chunk_keys@, k) {
                    let j = choose|j: int|
                        0 <= j < edited_chunk_keys@.len() && edited_chunk_keys@[j] == k;
                    assert(edited_voxels.entries@[j].0 == k);
                }
                if buf0.has_chunk(k) {
                    let j = seq_key_index(edited_voxels.entries@, k);
                    assert(edited_voxels.entries@[j].0 == k);
                    assert(edited_chunk_keys@[j] == k);
                }
            }
            assert(forall|i2: int, j2: int|
                0 <= i2 < j2 < edited_chunk_keys@.len() ==> edited_chunk_keys@[i2]
                    != edited_chunk_keys@[j2]);
        }
        // Move every working copy into the destination store.
        let ghost dst0 = *dst_map;
        while edited_voxels.len() > 0
            invariant
                dst_map.wf(),
                dst_map.chunk_shape == dst0.chunk_shape,
                buf0.wf(),
                buf0.chunk_shape == dst_map.chunk_shape,
                edited_voxels.wf(),
                forall|k: Point3i|
                    #[trigger] edited_voxels.has(k) ==> buf0.has_chunk(k) && edited_voxels.val(k)
                        == buf0.edited_voxels.val(k),
                forall|k: Point3i|
                    dst_map.has_chunk(k) == (dst0.has_chunk(k) || (buf0.has_chunk(k)
                        && !edited_voxels.has(k))),
                forall|k: Point3i|
                    buf0.has_chunk(k) && !edited_voxels.has(k) ==> dst_map.content_at(k)
                        == buf0.content_at(k),
                forall|k: Point3i|
                    (!buf0.has_chunk(k) || edited_voxels.has(k)) && dst0.has_chunk(k)
                        ==> dst_map.content_at(k) == dst0.content_at(k),
                forall|k: Point3i|
                    buf0.has_chunk(k) && !edited_voxels.has(k) ==> (#[trigger] dst_map.chunks.val(
                        k,
                    )).is_decompressed(),
                forall|k: Point3i|
                    !buf0.has_chunk(k) && dst0.has_chunk(k) ==> #[trigger] dst_map.chunks.val(k)
                        == dst0.chunks.val(k),
            decreases edited_voxels.entries@.len(),
        {
            let ghost prev = edited_voxels;
            match edited_voxels.entries.pop() {
                None => {
                    proof {
                        assert(false);
                    }
                },
                Some((k, arr)) => {
                    proof {
                        prev.lemma_entry_is_val(prev.entries@.len() - 1);
                        assert(prev.has(k));
                        assert(prev.val(k) == arr);
                        assert(buf0.has_chunk(k));
                        assert(arr.data@.len() == dst_map.chunk_shape.volume());
                        assert forall|k2: Point3i| #[trigger] edited_voxels.has(k2) implies
                            prev.has(k2) && edited_voxels.val(k2) == prev.val(k2) by {
                            let j = seq_key_index(edited_voxels.entries@, k2);
                            assert(edited_voxels.entries@[j].0 == k2);
                            assert(prev.entries@[j].0 == k2);
                            edited_voxels.lemma_entry_is_val(j);
                            prev.lemma_entry_is_val(j);
                        }
                        assert(!edited_voxels.has(k)) by {
                            if edited_voxels.has(k) {
                                let j = seq_key_index(edited_voxels.entries@, k);
                                assert(prev.entries@[j].0 == k);
                                assert(prev.entries@[prev.entries@.len() - 1].0 == k);
                            }
                        }
                        assert forall|k2: Point3i| k2 != k && prev.has(k2) implies
                            edited_voxels.has(k2) by {
                            let j = seq_key_index(prev.entries@, k2);
                            assert(prev.entries@[j].0 == k2);
                            assert(j != prev.entries@.len() - 1);
                            assert(edited_voxels.entries@[j].0 == k2);
                        }
                    }
                    let ghost predst = *dst_map;
                    dst_map.chunks.insert(k, crate::chunk::ChunkRepr::Decompressed(arr));
                    proof {
                        assert(dst_map.content_at(k) == buf0.content_at(k));
                        assert forall|k2: Point3i| #[trigger] dst_map.chunks.has(k2) implies
                            dst_map.chunks.val(k2).inv(dst_map.chunk_shape) by {
                            if k2 != k {
                                assert(predst.chunks.has(k2));
                                assert(predst.chunks.val(k2).inv(dst_map.chunk_shape));
                            }
                        }
                        assert forall|k2: Point3i|
                            dst_map.has_chunk(k2) == (dst0.has_chunk(k2) || (
                        buf0.has_chunk(k2) && !edited_voxels.has(k2))) by {
                            if k2 != k {
                                assert(dst_map.has_chunk(k2) == predst.has_chunk(k2));
                                if prev.has(k2) {
                                    assert(edited_voxels.has(k2));
                                }
                            }
                        }
                        assert forall|k2: Point3i|
                            buf0.has_chunk(k2) && !edited_voxels.has(k2) implies
                            dst_map.content_at(k2) == buf0.content_at(k2) by {
                            if k2 != k {
                                assert(!prev.has(k2));
                                assert(predst.has_chunk(k2));
                                assert(predst.content_at(k2) == buf0.content_at(k2));
                                assert(dst_map.content_at(k2) == predst.content_at(k2));
                            }
                        }
                        assert forall|k2: Point3i|
                            (!buf0.has_chunk(k2) || edited_voxels.has(k2)) && dst0.has_chunk(k2) implies dst_map.content_at(k2) == dst0.content_at(k2) by {
                            if k2 != k {
                                if edited_voxels.has(k2) {
                                    assert(prev.has(k2));
                                }
                                assert(dst_map.content_at(k2) == predst.content_at(k2));
                            } else {
                                assert(buf0.has_chunk(k2) && !edited_voxels.has(k2));
                            }
                        }
                        assert forall|k2: Point3i|
                            buf0.has_chunk(k2) && !edited_voxels.has(k2) implies (
                        #[trigger] dst_map.chunks.val(k2)).is_decompressed() by {
                            if k2 != k {
                                assert(!prev.has(k2));
                                assert(predst.has_chunk(k2));
                                assert(predst.chunks.val(k2).is_decompressed());
                                assert(dst_map.chunks.val(k2) == predst.chunks.val(k2));
                            }
                        }
                        assert forall|k2: Point3i|
                            !buf0.has_chunk(k2) && dst0.has_chunk(k2) implies
                            #[trigger] dst_map.chunks.val(k2) == dst0.chunks.val(k2) by {
                            assert(k2 != k);
                            assert(predst.has_chunk(k2));
                            assert(dst_map.chunks.val(k2) == predst.chunks.val(k2));
                        }
                    }
                },
            }
        }
        proof {
            assert(forall|k: Point3i| !edited_voxels.has(k));
        }
        DirtyChunks { edited_chunk_keys, dirty_chunk_keys }
    }
}

} // verus!
