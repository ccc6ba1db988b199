//! The shared chunk store and the per-worker read cache.
//!
//! The store is a sparse map from chunk keys to chunks; a key with no entry
//! stands for a chunk filled with the default voxel. Reads that have to
//! decompress park the decompressed copy in the reader's own
//! [`LocalChunkCache`], never in the shared store, so readers on different
//! workers never contend; the caches are folded back into the store at one
//! sync point per cycle ([`ChunkStore::flush_cache`]).

use vstd::prelude::*;

use crate::TypedVoxel;
use crate::chunk::{all_default_seq, default_array, ChunkArray, ChunkRepr};
use crate::entries::{lemma_insert_at, lemma_remove_at, seq_key_index, seq_keys_unique, KeyedVec};
use crate::geom::{chunk_key, linear_offset, ChunkShape, Point3i};

verus! {

/// A worker-private cache of decompressed chunk copies, keyed by chunk key.
pub struct LocalChunkCache {
    pub entries: KeyedVec<ChunkArray>,
}

impl LocalChunkCache {
    /// Unique keys.
    pub open spec fn wf(self) -> bool {
        self.entries.wf()
    }

    /// Whether the cache holds a copy of chunk `k`.
    pub open spec fn has(self, k: Point3i) -> bool {
        self.entries.has(k)
    }

    /// The cached copy's voxels (meaningful only when present).
    pub open spec fn content(self, k: Point3i) -> Seq<TypedVoxel> {
        self.entries.val(k).data@
    }

    /// Creates an empty cache; each worker owns one for the span of a cycle.
    pub fn new() -> (r: LocalChunkCache)
        ensures
            r.wf(),
            forall|k: Point3i| !r.has(k),
    {
        LocalChunkCache { entries: KeyedVec::new() }
    }
}

/// The shared, sparse mapping from chunk keys to chunks. Entry order is the
/// recency order the eviction pass walks: older entries sit nearer the front.
pub struct ChunkStore {
    pub chunk_shape: ChunkShape,
    pub chunks: KeyedVec<ChunkRepr>,
}

impl ChunkStore {
    /// Well-formed: usable shape, unique keys, and every chunk internally
    /// consistent with the shape.
    pub open spec fn wf(self) -> bool {
        self.chunk_shape.wf() && self.chunks.wf() && forall|k: Point3i|
            self.chunks.has(k) ==> (#[trigger] self.chunks.val(k)).inv(self.chunk_shape)
    }

    /// Whether a chunk is stored under `k`.
    pub open spec fn has_chunk(self, k: Point3i) -> bool {
        self.chunks.has(k)
    }

    /// The voxels of the chunk stored under `k` (meaningful only when
    /// present), whichever representation is live.
    pub open spec fn content_at(self, k: Point3i) -> Seq<TypedVoxel> {
        self.chunks.val(k).content()
    }

    /// The voxel the store holds at world point `p`: the stored chunk's
    /// voxel, or the default voxel where no chunk is stored.
    pub open spec fn voxel_at(self, p: Point3i) -> TypedVoxel {
        let k = self.chunk_shape.key_of(p);
        if self.has_chunk(k) {
            self.content_at(k)[self.chunk_shape.offset_of(p)]
        } else {
            TypedVoxel::default_spec()
        }
    }

    /// Whether `other` stores the same chunks with the same voxels
    /// (representations may differ).
    pub open spec fn same_chunks(self, other: ChunkStore) -> bool {
        (forall|k: Point3i| self.has_chunk(k) == other.has_chunk(k)) && forall|k: Point3i|
            self.has_chunk(k) ==> self.content_at(k) == other.content_at(k)
    }

    /// Whether local cache `c` agrees with this store: every cached chunk is
    /// stored here with exactly the cached voxels.
    pub open spec fn coherent_cache(self, c: LocalChunkCache) -> bool {
        c.wf() && forall|k: Point3i|
            #[trigger] c.has(k) ==> self.has_chunk(k) && c.content(k) == self.content_at(k)
    }

    /// Number of chunks currently stored.
    pub open spec fn num_chunks(self) -> int {
        self.chunks.len_spec()
    }

    /// Creates an empty store with the given chunk shape, fixed for its
    /// lifetime.
    pub fn new(chunk_shape: ChunkShape) -> (r: ChunkStore)
        requires
            chunk_shape.wf(),
        ensures
            r.wf(),
            r.chunk_shape == chunk_shape,
            forall|k: Point3i| !r.has_chunk(k),
    {
        ChunkStore { chunk_shape, chunks: KeyedVec::new() }
    }

    /// Ensures a chunk is stored under `key`, materializing a default-filled
    /// chunk when none is. Repeated calls with the same key create nothing
    /// new.
    pub fn get_or_insert(&mut self, key: Point3i)
        requires
            old(self).wf(),
        ensures
            final(self).wf(),
            final(self).chunk_shape == old(self).chunk_shape,
            final(self).has_chunk(key),
            old(self).has_chunk(key) ==> *final(self) == *old(self),
            !old(self).has_chunk(key) ==> final(self).content_at(key).len()
                == old(self).chunk_shape.volume() && all_default_seq(final(self).content_at(key)),
            forall|k2: Point3i| k2 != key ==> final(self).has_chunk(k2) == old(self).has_chunk(k2),
            forall|k2: Point3i|
                k2 != key && old(self).has_chunk(k2) ==> final(self).content_at(k2) == old(
                    self,
                ).content_at(k2),
    {
        if !self.chunks.contains_key(key) {
            let a = default_array(&self.chunk_shape);
            self.chunks.insert(key, ChunkRepr::Decompressed(a));
        }
    }

    /// Returns a private decompressed copy of the chunk under `key`, if one
    /// is stored, without touching any cache.
    pub fn copy_chunk_without_caching(&self, key: Point3i) -> (r: Option<ChunkArray>)
        requires
            self.wf(),
        ensures
            match r {
                Some(a) => self.has_chunk(key) && a.data@ == self.content_at(key),
                None => !self.has_chunk(key),
            },
    {
        match self.chunks.get(key) {
            Some(repr) => Some(repr.to_array(&self.chunk_shape)),
            None => None,
        }
    }

    /// Reads the voxel at world point `p` through the reader's local cache:
    /// a stored decompressed chunk is read in place, a compressed one is
    /// decompressed into `cache` first, and a missing one reads as the
    /// default voxel. The shared store is never touched, so any number of
    /// readers may run in parallel, each with its own cache.
    pub fn read_voxel(&self, cache: &mut LocalChunkCache, p: Point3i) -> (v: TypedVoxel)
        requires
            self.wf(),
            self.coherent_cache(*old(cache)),
            p.in_world(),
        ensures
            v == self.voxel_at(p),
            self.coherent_cache(*final(cache)),
            forall|k: Point3i| old(cache).has(k) ==> final(cache).has(k),
            forall|k: Point3i|
                final(cache).has(k) ==> old(cache).has(k) || (k == self.chunk_shape.key_of(p)
                    && self.has_chunk(k)),
    {
        let k = chunk_key(&self.chunk_shape, p);
        let idx = linear_offset(&self.chunk_shape, p);
        match cache.entries.get(k) {
            Some(a) => {
                proof {
                    assert(old(cache).has(k));
                    assert(self.has_chunk(k));
                    assert(self.chunks.val(k).inv(self.chunk_shape));
                    assert(a.data@ == old(cache).content(k));
                    assert(a.data@.len() == self.chunk_shape.volume());
                }
                a.data[idx]
            },
            None => {
                match self.chunks.get(k) {
                    None => TypedVoxel::default(),
                    Some(repr) => {
                        proof {
                            assert(self.has_chunk(k));
                            assert(self.chunks.val(k).inv(self.chunk_shape));
                        }
                        match repr {
                            ChunkRepr::Decompressed(a) => a.data[idx],
                            ChunkRepr::Compressed(_, _) => {
                                let a = repr.to_array(&self.chunk_shape);
                                let v = a.data[idx];
                                cache.entries.insert(k, a);
                                proof {
                                    assert(cache.has(k));
                                    assert(cache.content(k) == self.content_at(k));
                                    assert forall|k2: Point3i| #[trigger] cache.has(k2) implies
                                        self.has_chunk(k2) && cache.content(k2)
                                        == self.content_at(k2) by {
                                        if k2 != k {
                                            assert(old(cache).has(k2));
                                        }
                                    }
                                }
                                v
                            },
                        }
                    },
                }
            },
        }
    }

    /// Folds a worker's local cache into the store: every cached copy of a
    /// still-compressed chunk replaces the blob with the identical
    /// decompressed form. Voxel contents never change. Must run only at the
    /// cycle sync point, with the cache's reads finished.
    pub fn flush_cache(&mut self, cache: LocalChunkCache)
        requires
            old(self).wf(),
            old(self).coherent_cache(cache),
        ensures
            final(self).wf(),
            final(self).chunk_shape == old(self).chunk_shape,
            old(self).same_chunks(*final(self)),
            final(self).num_chunks() == old(self).num_chunks(),
            forall|k: Point3i|
                cache.has(k) ==> (#[trigger] final(self).chunks.val(k)).is_decompressed(),
            forall|k: Point3i|
                old(self).has_chunk(k) && old(self).chunks.val(k).is_decompressed() ==> (
                #[trigger] final(self).chunks.val(k)).is_decompressed(),
    {
        let mut rest = cache;
        while rest.entries.len() > 0
            invariant
                self.wf(),
                self.chunk_shape == old(self).chunk_shape,
                old(self).same_chunks(*self),
                self.num_chunks() == old(self).num_chunks(),
                self.coherent_cache(rest),
                old(self).coherent_cache(cache),
                cache.wf(),
                forall|k2: Point3i| rest.has(k2) ==> cache.has(k2),
                forall|k: Point3i|
                    cache.has(k) && !rest.has(k) ==> (#[trigger] self.chunks.val(
                        k,
                    )).is_decompressed(),
                forall|k: Point3i|
                    old(self).has_chunk(k) && old(self).chunks.val(k).is_decompressed() ==> (
                    #[trigger] self.chunks.val(k)).is_decompressed(),
            decreases rest.entries.entries@.len(),
        {
            let ghost pre_cache = rest;
            match rest.entries.entries.pop() {
                None => {
                    proof {
                        assert(false);
                    }
                },
                Some((k, a)) => {
                    proof {
                        pre_cache.entries.lemma_entry_is_val(pre_cache.entries.entries@.len() - 1);
                        assert(pre_cache.has(k));
                        assert(pre_cache.content(k) == a.data@);
                        assert(rest.entries.wf());
                        assert forall|k2: Point3i| k2 != k && pre_cache.has(k2) implies
                            rest.has(k2) by {
                            let j = seq_key_index(pre_cache.entries.entries@, k2);
                            assert(pre_cache.entries.entries@[j].0 == k2);
                            assert(j != pre_cache.entries.entries@.len() - 1);
                            assert(rest.entries.entries@[j].0 == k2);
                        }
                    }
                    let ghost pre = *self;
                    match self.chunks.find(k) {
                        None => {
                            proof {
                                assert(false);
                            }
                        },
                        Some(i) => {
                            proof {
                                self.chunks.lemma_entry_is_val(i as int);
                            }
                            let replace = match &self.chunks.entries[i].1 {
                                ChunkRepr::Decompressed(_) => false,
                                ChunkRepr::Compressed(_, _) => true,
                            };
                            if replace {
                                self.chunks.set_value_at(i, ChunkRepr::Decompressed(a));
                                proof {
                                    assert(self.content_at(k) == pre.content_at(k));
                                }
                            }
                        },
                    }
                    proof {
                        assert forall|k2: Point3i| #[trigger] rest.has(k2) implies
                            self.has_chunk(k2) && rest.content(k2) == self.content_at(k2) by {
                            let j = choose|j: int|
                                0 <= j < rest.entries.entries@.len()
                                    && rest.entries.entries@[j].0 == k2;
                            assert(pre_cache.entries.entries@[j].0 == k2);
                            assert(pre_cache.has(k2));
                            rest.entries.lemma_entry_is_val(j);
                            pre_cache.entries.lemma_entry_is_val(j);
                            assert(rest.content(k2) == pre_cache.content(k2));
                        }
                        assert(self.chunks.val(k).is_decompressed());
                        assert forall|k2: Point3i|
                            cache.has(k2) && !rest.has(k2) implies (#[trigger] self.chunks.val(
                            k2,
                        )).is_decompressed() by {
                            if k2 != k {
                                assert(!pre_cache.has(k2));
                                assert(old(self).has_chunk(k2));
                                assert(pre.has_chunk(k2));
                                assert(self.chunks.val(k2) == pre.chunks.val(k2));
                            }
                        }
                        assert forall|k2: Point3i|
                            old(self).has_chunk(k2) && old(self).chunks.val(
                                k2,
                            ).is_decompressed() implies (#[trigger] self.chunks.val(
                            k2,
                        )).is_decompressed() by {
                            if k2 != k {
                                assert(pre.has_chunk(k2));
                                assert(pre.chunks.val(k2).is_decompressed());
                                assert(self.chunks.val(k2) == pre.chunks.val(k2));
                            }
                        }
                    }
                },
            }
        }
    }
}

/// The relation between a store's entries before and after an eviction
/// pass that walked the recency order from the front: the `cut` oldest
/// entries hold no decompressed form, and every entry past the cut is
/// untouched.
pub open spec fn lru_prefix_evicted(
    pre: Seq<(Point3i, ChunkRepr)>,
    post: Seq<(Point3i, ChunkRepr)>,
    cut: int,
) -> bool {
    0 <= cut <= pre.len() && post.len() == pre.len() && (forall|j: int|
        0 <= j < cut ==> !(#[trigger] post[j]).1.is_decompressed()) && (forall|j: int|
        cut <= j < pre.len() ==> post[j] == pre[j])
}

/// Number of decompressed chunks among the entries.
pub open spec fn decompressed_count(s: Seq<(Point3i, ChunkRepr)>) -> int
    decreases s.len(),
{
    if s.len() == 0 {
        0
    } else {
        decompressed_count(s.drop_last()) + if s.last().1.is_decompressed() {
            1int
        } else {
            0int
        }
    }
}

/// The count is between 0 and the number of entries.
pub proof fn lemma_count_bounds(s: Seq<(Point3i, ChunkRepr)>)
    ensures
        0 <= decompressed_count(s) <= s.len(),
    decreases s.len(),
{
    if s.len() > 0 {
        lemma_count_bounds(s.drop_last());
    }
}

/// Extending by one entry adds one to the count exactly when that entry is
/// decompressed.
pub proof fn lemma_count_take_step(s: Seq<(Point3i, ChunkRepr)>, i: int)
    requires
        0 <= i < s.len(),
    ensures
        decompressed_count(s.take(i + 1)) == decompressed_count(s.take(i)) + if s[i].1.is_decompressed() {
            1int
        } else {
            0int
        },
{
    assert(s.take(i + 1).drop_last() =~= s.take(i));
    assert(s.take(i + 1).last() == s[i]);
}

/// Replacing one entry changes the count by the difference of the two
/// entries' forms.
pub proof fn lemma_count_update(s: Seq<(Point3i, ChunkRepr)>, i: int, e: (Point3i, ChunkRepr))
    requires
        0 <= i < s.len(),
    ensures
        decompressed_count(s.update(i, e)) == decompressed_count(s) - (if s[i].1.is_decompressed() {
            1int
        } else {
            0int
        }) + (if e.1.is_decompressed() {
            1int
        } else {
            0int
        }),
    decreases s.len(),
{
    if i == s.len() - 1 {
        assert(s.update(i, e).drop_last() =~= s.drop_last());
        assert(s.update(i, e).last() == e);
    } else {
        assert(s.update(i, e).drop_last() =~= s.drop_last().update(i, e));
        assert(s.update(i, e).last() == s.last());
        lemma_count_update(s.drop_last(), i, e);
    }
}

/// An entry in decompressed form makes the count positive.
pub proof fn lemma_count_pos(s: Seq<(Point3i, ChunkRepr)>, i: int)
    requires
        0 <= i < s.len(),
        s[i].1.is_decompressed(),
    ensures
        decompressed_count(s) >= 1,
    decreases s.len(),
{
    lemma_count_bounds(s.drop_last());
    if i < s.len() - 1 {
        assert(s.drop_last()[i] == s[i]);
        lemma_count_pos(s.drop_last(), i);
    }
}

/// A sequence with no decompressed entry has count zero.
pub proof fn lemma_count_zero(s: Seq<(Point3i, ChunkRepr)>)
    requires
        forall|j: int| 0 <= j < s.len() ==> !(#[trigger] s[j]).1.is_decompressed(),
    ensures
        decompressed_count(s) == 0,
    decreases s.len(),
{
    if s.len() > 0 {
        assert(forall|j: int|
            0 <= j < s.drop_last().len() ==> #[trigger] s.drop_last()[j] == s[j]);
        lemma_count_zero(s.drop_last());
    }
}

/// Whether `a * b > c`, computed without overflow.
fn mul_gt(a: usize, b: usize, c: usize) -> (r: bool)
    ensures
        r == ((a as int) * (b as int) > c as int),
{
    proof {
        assert((a as int) * (b as int) < 0x1_0000_0000_0000_0000_0000_0000_0000_0000)
            by (nonlinear_arith)
            requires
                0 <= a as int <= 0xFFFF_FFFF_FFFF_FFFF,
                0 <= b as int <= 0xFFFF_FFFF_FFFF_FFFF,
        ;
    }
    (a as u128) * (b as u128) > (c as u128)
}

impl ChunkStore {
    /// Total bytes held decompressed by the store: one byte per voxel of
    /// each decompressed chunk.
    pub open spec fn cached_bytes(self) -> int {
        decompressed_count(self.chunks.entries@) * self.chunk_shape.volume()
    }

    /// Whether a chunk is stored under `k`, executable form.
    pub fn contains_chunk(&self, k: Point3i) -> (r: bool)
        requires
            self.wf(),
        ensures
            r == self.has_chunk(k),
    {
        self.chunks.contains_key(k)
    }

    /// Counts the decompressed chunks.
    pub fn count_decompressed(&self) -> (r: usize)
        requires
            self.wf(),
        ensures
            r as int == decompressed_count(self.chunks.entries@),
    {
        let n = self.chunks.len();
        let mut count: usize = 0;
        let mut i: usize = 0;
        proof {
            assert(self.chunks.entries@.take(0) =~= Seq::<(Point3i, ChunkRepr)>::empty());
        }
        while i < n
            invariant
                self.wf(),
                n == self.chunks.entries@.len(),
                i <= n,
                count <= i,
                count as int == decompressed_count(self.chunks.entries@.take(i as int)),
            decreases n - i,
        {
            proof {
                lemma_count_take_step(self.chunks.entries@, i as int);
            }
            let dec = match &self.chunks.entries[i].1 {
                ChunkRepr::Decompressed(_) => true,
                ChunkRepr::Compressed(_, _) => false,
            };
            if dec {
                count += 1;
            }
            i += 1;
        }
        proof {
            assert(self.chunks.entries@.take(n as int) =~= self.chunks.entries@);
        }
        count
    }

    /// Evicts decompressed chunks, oldest first, by switching them to their
    /// compressed form, until the decompressed footprint is within `budget`.
    /// No chunk is added, removed, or changed in content.
    pub fn compress_excess(&mut self, budget: usize)
        requires
            old(self).wf(),
        ensures
            final(self).wf(),
            final(self).chunk_shape == old(self).chunk_shape,
            old(self).same_chunks(*final(self)),
            final(self).num_chunks() == old(self).num_chunks(),
            final(self).cached_bytes() <= budget,
            // Eviction is least-recently-used: some prefix of the entry
            // order (the oldest entries) is compressed, and everything
            // after it is left exactly as it was.
            exists|cut: int|
                #[trigger] lru_prefix_evicted(
                    old(self).chunks.entries@,
                    final(self).chunks.entries@,
                    cut,
                ),
    {
        let ghost e0 = self.chunks.entries@;
        let shape = self.chunk_shape;
        let vol = shape.volume_exec();
        let n = self.chunks.len();
        let mut count = self.count_decompressed();
        let mut over = mul_gt(count, vol, budget);
        let mut i: usize = 0;
        while i < n && over
            invariant
                self.wf(),
                self.chunk_shape == old(self).chunk_shape,
                self.chunk_shape == shape,
                vol as int == shape.volume(),
                old(self).same_chunks(*self),
                n == self.chunks.entries@.len(),
                self.num_chunks() == old(self).num_chunks(),
                i <= n,
                count as int == decompressed_count(self.chunks.entries@),
                over == ((count as int) * (vol as int) > budget as int),
                forall|j: int|
                    0 <= j < i ==> !(#[trigger] self.chunks.entries@[j]).1.is_decompressed(),
                e0.len() == n,
                forall|j: int| i <= j < n ==> self.chunks.entries@[j] == e0[j],
            decreases n - i,
        {
            let dec = match &self.chunks.entries[i].1 {
                ChunkRepr::Decompressed(_) => true,
                ChunkRepr::Compressed(_, _) => false,
            };
            if dec {
                let ghost pre = *self;
                proof {
                    self.chunks.lemma_entry_is_val(i as int);
                }
                let (kk, repr) = self.chunks.entries.remove(i);
                match repr {
                    ChunkRepr::Decompressed(a) => {
                        proof {
                            assert(pre.chunks.val(kk).inv(shape));
                            assert(a.sized_for(shape));
                        }
                        let c = ChunkRepr::compress(a, &shape);
                        self.chunks.entries.insert(i, (kk, c));
                        proof {
                            assert(self.chunks.entries@ =~= pre.chunks.entries@.update(
                                i as int,
                                (kk, c),
                            ));
                            assert(seq_keys_unique(self.chunks.entries@)) by {
                                assert(forall|a2: int, b2: int|
                                    0 <= a2 < b2 < self.chunks.entries@.len()
                                        ==> self.chunks.entries@[a2].0 == pre.chunks.entries@[a2].0
                                        && self.chunks.entries@[b2].0
                                        == pre.chunks.entries@[b2].0);
                            }
                            lemma_insert_at(
                                pre.chunks.entries@,
                                self.chunks.entries@,
                                i as int,
                                kk,
                            );
                            lemma_count_update(pre.chunks.entries@, i as int, (kk, c));
                            lemma_count_pos(pre.chunks.entries@, i as int);
                            assert(self.content_at(kk) == pre.content_at(kk));
                            assert forall|k2: Point3i| #[trigger] self.chunks.has(k2) implies
                                self.chunks.val(k2).inv(shape) by {
                                if k2 != kk {
                                    assert(pre.chunks.has(k2));
                                    assert(pre.chunks.val(k2).inv(shape));
                                }
                            }
                            assert forall|k2: Point3i| #[trigger] pre.has_chunk(k2) implies
                                pre.content_at(k2) == self.content_at(k2) by {}
                        }
                        count -= 1;
                    },
                    ChunkRepr::Compressed(_, _) => {
                        proof {
                            assert(false);
                        }
                    },
                }
            }
            over = mul_gt(count, vol, budget);
            i += 1;
        }
        proof {
            if over {
                lemma_count_zero(self.chunks.entries@);
                assert(false);
            }
            assert(lru_prefix_evicted(e0, self.chunks.entries@, i as int));
        }
    }

    /// Removes every chunk whose voxels all equal the default voxel,
    /// decompressing as needed to look. The voxel a read returns is
    /// unchanged at every point: a removed chunk read as all-default before
    /// and reads as all-default after.
    pub fn remove_if_empty(&mut self)
        requires
            old(self).wf(),
        ensures
            final(self).wf(),
            final(self).chunk_shape == old(self).chunk_shape,
            forall|k: Point3i|
                final(self).has_chunk(k) == (old(self).has_chunk(k) && !all_default_seq(
                    old(self).content_at(k),
                )),
            forall|k: Point3i|
                final(self).has_chunk(k) ==> final(self).content_at(k) == old(self).content_at(k),
            forall|p: Point3i| p.in_world() ==> final(self).voxel_at(p) == old(self).voxel_at(p),
    {
        let shape = self.chunk_shape;
        let mut i = self.chunks.len();
        while i > 0
            invariant
                self.wf(),
                self.chunk_shape == old(self).chunk_shape,
                self.chunk_shape == shape,
                i <= self.chunks.entries@.len(),
                forall|j: int|
                    i <= j < self.chunks.entries@.len() ==> !all_default_seq(
                        (#[trigger] self.chunks.entries@[j]).1.content(),
                    ),
                forall|k: Point3i|
                    #[trigger] self.has_chunk(k) ==> old(self).has_chunk(k) && self.content_at(k)
                        == old(self).content_at(k),
                forall|k: Point3i|
                    old(self).has_chunk(k) && !all_default_seq(old(self).content_at(k))
                        ==> #[trigger] self.has_chunk(k),
            decreases i,
        {
            i -= 1;
            proof {
                self.chunks.lemma_entry_is_val(i as int);
            }
            let empty = self.chunks.entries[i].1.is_all_default(&shape);
            if empty {
                let ghost pre = *self;
                let k = self.chunks.entries[i].0;
                let _ = self.chunks.entries.remove(i);
                proof {
                    lemma_remove_at(pre.chunks.entries@, self.chunks.entries@, i as int, k);
                    assert(pre.has_chunk(k));
                    assert(all_default_seq(pre.content_at(k)));
                    assert(all_default_seq(old(self).content_at(k)));
                    assert forall|j: int|
                        i <= j < self.chunks.entries@.len() implies !all_default_seq(
                        (#[trigger] self.chunks.entries@[j]).1.content()) by {
                        assert(self.chunks.entries@[j] == pre.chunks.entries@[j + 1]);
                    }
                    assert forall|k2: Point3i| #[trigger] self.chunks.has(k2) implies
                        self.chunks.val(k2).inv(shape) by {
                        assert(pre.chunks.has(k2));
                        assert(pre.chunks.val(k2).inv(shape));
                    }
                    assert forall|k2: Point3i| #[trigger] self.has_chunk(k2) implies old(
                        self,
                    ).has_chunk(k2) && self.content_at(k2) == old(self).content_at(k2) by {
                        assert(pre.has_chunk(k2));
                    }
                    assert forall|k2: Point3i|
                        old(self).has_chunk(k2) && !all_default_seq(
                            old(self).content_at(k2),
                        ) implies #[trigger] self.has_chunk(k2) by {
                        assert(pre.has_chunk(k2));
                        assert(k2 != k);
                    }
                }
            }
        }
        proof {
            assert forall|k: Point3i|
                final(self).has_chunk(k) == (old(self).has_chunk(k) && !all_default_seq(
                    old(self).content_at(k),
                )) by {
                if self.has_chunk(k) {
                    let j = seq_key_index(self.chunks.entries@, k);
                    assert(0 <= j < self.chunks.entries@.len() && self.chunks.entries@[j].0 == k);
                    self.chunks.lemma_entry_is_val(j);
                    assert(!all_default_seq(self.content_at(k)));
                }
            }
            assert forall|p: Point3i| p.in_world() implies final(self).voxel_at(p) == old(
                self,
            ).voxel_at(p) by {
                let k = shape.key_of(p);
                crate::geom::lemma_point_decompose(shape, p);
                if old(self).has_chunk(k) {
                    if !self.has_chunk(k) {
                        assert(all_default_seq(old(self).content_at(k)));
                        assert(old(self).chunks.val(k).inv(shape));
                        assert(old(self).content_at(k)[shape.offset_of(p)].is_default());
                    }
                }
            }
        }
    }
}

/// Two stores with the same chunks and shape hold the same voxel at every
/// point.
pub proof fn lemma_same_chunks_voxel(a: ChunkStore, b: ChunkStore, p: Point3i)
    requires
        a.same_chunks(b),
        a.chunk_shape == b.chunk_shape,
    ensures
        a.voxel_at(p) == b.voxel_at(p),
{
    let k = a.chunk_shape.key_of(p);
    assert(a.has_chunk(k) == b.has_chunk(k));
    if a.has_chunk(k) {
        assert(a.content_at(k) == b.content_at(k));
    }
}

/// Having the same chunks is transitive.
pub proof fn lemma_same_chunks_trans(a: ChunkStore, b: ChunkStore, c: ChunkStore)
    requires
        a.same_chunks(b),
        b.same_chunks(c),
    ensures
        a.same_chunks(c),
{
    assert forall|k: Point3i| a.has_chunk(k) implies a.content_at(k) == c.content_at(k) by {
        assert(b.has_chunk(k));
    }
}

} // verus!
