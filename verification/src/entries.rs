//! Small verified containers keyed by chunk key: an association vector with
//! unique keys (the backing of the chunk store and the caches) and a
//! duplicate-free key vector (the dirty sets).
//!
//! Entries keep their insertion order, which the store uses as its
//! least-recently-used order: older entries sit closer to the front.

use vstd::prelude::*;

use crate::geom::Point3i;

verus! {

/// Whether some entry of `s` carries key `k`.
pub open spec fn seq_has_key<V>(s: Seq<(Point3i, V)>, k: Point3i) -> bool {
    exists|i: int| 0 <= i < s.len() && s[i].0 == k
}

/// The index of the entry carrying key `k` (meaningful only when present).
pub open spec fn seq_key_index<V>(s: Seq<(Point3i, V)>, k: Point3i) -> int {
    choose|i: int| 0 <= i < s.len() && s[i].0 == k
}

/// The value stored under key `k` (meaningful only when present).
pub open spec fn seq_key_value<V>(s: Seq<(Point3i, V)>, k: Point3i) -> V {
    s[seq_key_index(s, k)].1
}

/// No two entries carry the same key.
pub open spec fn seq_keys_unique<V>(s: Seq<(Point3i, V)>) -> bool {
    forall|i: int, j: int| 0 <= i < j < s.len() ==> s[i].0 != s[j].0
}

/// An association vector from chunk keys to values, with unique keys.
pub struct KeyedVec<V> {
    pub entries: Vec<(Point3i, V)>,
}

impl<V> KeyedVec<V> {
    /// Unique keys throughout.
    pub open spec fn wf(self) -> bool {
        seq_keys_unique(self.entries@)
    }

    /// Whether key `k` is present.
    pub open spec fn has(self, k: Point3i) -> bool {
        seq_has_key(self.entries@, k)
    }

    /// The value stored under key `k` (meaningful only when present).
    pub open spec fn val(self, k: Point3i) -> V {
        seq_key_value(self.entries@, k)
    }

    /// Number of entries.
    pub open spec fn len_spec(self) -> int {
        self.entries@.len() as int
    }

    /// Creates an empty association vector.
    pub fn new() -> (r: KeyedVec<V>)
        ensures
            r.wf(),
            r.len_spec() == 0,
            forall|k: Point3i| !r.has(k),
    {
        KeyedVec { entries: Vec::new() }
    }

    /// Number of entries.
    pub fn len(&self) -> (r: usize)
        ensures
            r == self.len_spec(),
    {
        self.entries.len()
    }

    /// Returns the position of the entry carrying `k`, if any.
    pub fn find(&self, k: Point3i) -> (r: Option<usize>)
        requires
            self.wf(),
        ensures
            match r {
                Some(i) => self.has(k) && i < self.entries@.len() && self.entries@[i as int].0
                    == k && seq_key_index(self.entries@, k) == i,
                None => !self.has(k),
            },
    {
        let n = self.entries.len();
        let mut i: usize = 0;
        while i < n
            invariant
                n == self.entries@.len(),
                i <= n,
                self.wf(),
                forall|j: int| 0 <= j < i ==> self.entries@[j].0 != k,
            decreases n - i,
        {
            let e = &self.entries[i];
            if e.0.x == k.x && e.0.y == k.y && e.0.z == k.z {
                proof {
                    assert(self.entries@[i as int].0 == k);
                    assert(seq_key_index(self.entries@, k) == i as int) by {
                        let j = seq_key_index(self.entries@, k);
                        assert(0 <= j < self.entries@.len() && self.entries@[j].0 == k);
                    }
                }
                return Some(i);
            }
            i += 1;
        }
        None
    }

    /// Whether key `k` is present.
    pub fn contains_key(&self, k: Point3i) -> (r: bool)
        requires
            self.wf(),
        ensures
            r == self.has(k),
    {
        self.find(k).is_some()
    }

    /// Borrows the value stored under `k`, if present.
    pub fn get(&self, k: Point3i) -> (r: Option<&V>)
        requires
            self.wf(),
        ensures
            match r {
                Some(v) => self.has(k) && *v == self.val(k),
                None => !self.has(k),
            },
    {
        match self.find(k) {
            Some(i) => Some(&self.entries[i].1),
            None => None,
        }
    }

    /// Inserts `v` under key `k`, replacing the previous value if one was
    /// stored. A fresh key goes to the back (the most recent position).
    pub fn insert(&mut self, k: Point3i, v: V)
        requires
            old(self).wf(),
        ensures
            final(self).wf(),
            final(self).has(k),
            final(self).val(k) == v,
            forall|k2: Point3i| k2 != k ==> final(self).has(k2) == old(self).has(k2),
            forall|k2: Point3i| k2 != k && old(self).has(k2) ==> final(self).val(k2) == old(
                self,
            ).val(k2),
            final(self).len_spec() == old(self).len_spec() + (if old(self).has(k) {
                0int
            } else {
                1int
            }),
    {
        let ghost pre = self.entries@;
        match self.find(k) {
            Some(i) => {
                self.entries.set(i, (k, v));
                proof {
                    assert(seq_keys_unique(self.entries@)) by {
                        assert(forall|a: int, b: int|
                            0 <= a < b < self.entries@.len() ==> self.entries@[a].0 != pre[a].0
                                || self.entries@[b].0 != pre[b].0 || (self.entries@[a].0 == pre[a].0
                                && self.entries@[b].0 == pre[b].0));
                    }
                    lemma_insert_at(pre, self.entries@, i as int, k);
                }
            },
            None => {
                self.entries.push((k, v));
                proof {
                    lemma_append_fresh(pre, self.entries@, k);
                }
            },
        }
    }

    /// Replaces the value of the entry at position `i`, keeping its key.
    pub fn set_value_at(&mut self, i: usize, v: V)
        requires
            old(self).wf(),
            i < old(self).entries@.len(),
        ensures
            final(self).wf(),
            final(self).entries@.len() == old(self).entries@.len(),
            final(self).entries@[i as int].0 == old(self).entries@[i as int].0,
            final(self).entries@[i as int].1 == v,
            forall|j: int|
                0 <= j < old(self).entries@.len() && j != i ==> final(self).entries@[j] == old(
                    self,
                ).entries@[j],
            forall|k2: Point3i| final(self).has(k2) == old(self).has(k2),
            final(self).val(old(self).entries@[i as int].0) == v,
            forall|k2: Point3i|
                k2 != old(self).entries@[i as int].0 && old(self).has(k2) ==> final(self).val(k2)
                    == old(self).val(k2),
    {
        let ghost pre = self.entries@;
        let k = self.entries[i].0;
        self.entries.set(i, (k, v));
        proof {
            assert(seq_keys_unique(self.entries@)) by {
                assert(forall|a: int, b: int|
                    0 <= a < b < self.entries@.len() ==> self.entries@[a].0 == pre[a].0
                        && self.entries@[b].0 == pre[b].0);
            }
            lemma_insert_at(pre, self.entries@, i as int, k);
            lemma_key_index_agrees(self.entries@, k, i as int);
            assert forall|k2: Point3i| self.has(k2) == seq_has_key(pre, k2) by {
                if seq_has_key(pre, k2) {
                    let j = seq_key_index(pre, k2);
                    assert(self.entries@[j].0 == k2);
                }
                if self.has(k2) {
                    let j = seq_key_index(self.entries@, k2);
                    assert(pre[j].0 == k2);
                }
            }
        }
    }

    /// The entry at position `i` is what lookup by its key returns.
    pub proof fn lemma_entry_is_val(self, i: int)
        requires
            self.wf(),
            0 <= i < self.entries@.len(),
        ensures
            self.has(self.entries@[i].0),
            self.val(self.entries@[i].0) == self.entries@[i].1,
            seq_key_index(self.entries@, self.entries@[i].0) == i,
    {
        lemma_key_index_agrees(self.entries@, self.entries@[i].0, i);
    }

}

/// After replacing the entry at `i` (whose key was already `k` or which now
/// carries `k`), lookups behave like an update of the old sequence.
pub proof fn lemma_insert_at<V>(pre: Seq<(Point3i, V)>, post: Seq<(Point3i, V)>, i: int, k: Point3i)
    requires
        seq_keys_unique(pre),
        seq_keys_unique(post),
        0 <= i < pre.len(),
        post.len() == pre.len(),
        pre[i].0 == k,
        post[i].0 == k,
        forall|j: int| 0 <= j < pre.len() && j != i ==> post[j] == pre[j],
    ensures
        seq_has_key(post, k),
        seq_key_value(post, k) == post[i].1,
        forall|k2: Point3i| k2 != k ==> seq_has_key(post, k2) == seq_has_key(pre, k2),
        forall|k2: Point3i|
            k2 != k && seq_has_key(pre, k2) ==> seq_key_value(post, k2) == seq_key_value(pre, k2),
{
    assert(seq_has_key(post, k));
    lemma_key_index_agrees(post, k, i);
    assert forall|k2: Point3i| k2 != k implies seq_has_key(post, k2) == seq_has_key(
        pre,
        k2,
    ) by {
        if seq_has_key(pre, k2) {
            let j = seq_key_index(pre, k2);
            assert(post[j].0 == k2);
        }
        if seq_has_key(post, k2) {
            let j = seq_key_index(post, k2);
            assert(pre[j].0 == k2);
        }
    }
    assert forall|k2: Point3i| k2 != k && seq_has_key(pre, k2) implies seq_key_value(post, k2)
        == seq_key_value(pre, k2) by {
        let j = seq_key_index(pre, k2);
        assert(pre[j].0 == k2);
        assert(post[j].0 == k2);
        lemma_key_index_agrees(post, k2, j);
        lemma_key_index_agrees(pre, k2, j);
    }
}

/// Pushing a fresh key behaves like an insert into the map of the old
/// sequence.
pub proof fn lemma_append_fresh<V>(pre: Seq<(Point3i, V)>, post: Seq<(Point3i, V)>, k: Point3i)
    requires
        seq_keys_unique(pre),
        !seq_has_key(pre, k),
        post.len() == pre.len() + 1,
        post[pre.len() as int].0 == k,
        forall|j: int| 0 <= j < pre.len() ==> post[j] == pre[j],
    ensures
        seq_keys_unique(post),
        seq_has_key(post, k),
        seq_key_value(post, k) == post[pre.len() as int].1,
        forall|k2: Point3i| k2 != k ==> seq_has_key(post, k2) == seq_has_key(pre, k2),
        forall|k2: Point3i|
            k2 != k && seq_has_key(pre, k2) ==> seq_key_value(post, k2) == seq_key_value(pre, k2),
{
    let n = pre.len() as int;
    assert(seq_keys_unique(post)) by {
        assert forall|a: int, b: int| 0 <= a < b < post.len() implies post[a].0 != post[b].0 by {
            if b < n {
                assert(pre[a].0 != pre[b].0);
            } else {
                assert(post[b].0 == k);
                assert(post[a] == pre[a]);
            }
        }
    }
    assert(post[n].0 == k);
    assert(seq_has_key(post, k));
    lemma_key_index_agrees(post, k, n);
    assert forall|k2: Point3i| k2 != k implies seq_has_key(post, k2) == seq_has_key(
        pre,
        k2,
    ) by {
        if seq_has_key(pre, k2) {
            let j = seq_key_index(pre, k2);
            assert(post[j].0 == k2);
        }
        if seq_has_key(post, k2) {
            let j = seq_key_index(post, k2);
            assert(j != n);
            assert(pre[j].0 == k2);
        }
    }
    assert forall|k2: Point3i| k2 != k && seq_has_key(pre, k2) implies seq_key_value(post, k2)
        == seq_key_value(pre, k2) by {
        let j = seq_key_index(pre, k2);
        assert(pre[j].0 == k2);
        assert(post[j].0 == k2);
        lemma_key_index_agrees(post, k2, j);
        lemma_key_index_agrees(pre, k2, j);
    }
}

/// Removing the entry at `i` removes exactly its key.
pub proof fn lemma_remove_at<V>(pre: Seq<(Point3i, V)>, post: Seq<(Point3i, V)>, i: int, k: Point3i)
    requires
        seq_keys_unique(pre),
        0 <= i < pre.len(),
        pre[i].0 == k,
        post.len() == pre.len() - 1,
        forall|j: int| 0 <= j < i ==> post[j] == pre[j],
        forall|j: int| i <= j < post.len() ==> post[j] == pre[j + 1],
    ensures
        seq_keys_unique(post),
        !seq_has_key(post, k),
        forall|k2: Point3i| k2 != k ==> seq_has_key(post, k2) == seq_has_key(pre, k2),
        forall|k2: Point3i|
            k2 != k && seq_has_key(pre, k2) ==> seq_key_value(post, k2) == seq_key_value(pre, k2),
{
    assert(seq_keys_unique(post)) by {
        assert forall|a: int, b: int| 0 <= a < b < post.len() implies post[a].0 != post[b].0 by {
            let pa = if a < i {
                a
            } else {
                a + 1
            };
            let pb = if b < i {
                b
            } else {
                b + 1
            };
            assert(post[a] == pre[pa]);
            assert(post[b] == pre[pb]);
        }
    }
    assert(!seq_has_key(post, k)) by {
        if seq_has_key(post, k) {
            let j = seq_key_index(post, k);
            let pj = if j < i {
                j
            } else {
                j + 1
            };
            assert(pre[pj].0 == k);
            assert(pj != i ==> false);
        }
    }
    assert forall|k2: Point3i| k2 != k implies seq_has_key(post, k2) == seq_has_key(
        pre,
        k2,
    ) by {
        if seq_has_key(pre, k2) {
            let j = seq_key_index(pre, k2);
            assert(pre[j].0 == k2);
            let qj = if j < i {
                j
            } else {
                j - 1
            };
            assert(post[qj].0 == k2);
        }
        if seq_has_key(post, k2) {
            let j = seq_key_index(post, k2);
            let pj = if j < i {
                j
            } else {
                j + 1
            };
            assert(pre[pj].0 == k2);
        }
    }
    assert forall|k2: Point3i| k2 != k && seq_has_key(pre, k2) implies seq_key_value(post, k2)
        == seq_key_value(pre, k2) by {
        let j = seq_key_index(pre, k2);
        assert(pre[j].0 == k2);
        lemma_key_index_agrees(pre, k2, j);
        let qj = if j < i {
            j
        } else {
            j - 1
        };
        assert(post[qj].0 == k2);
        lemma_key_index_agrees(post, k2, qj);
    }
}

/// When entry `i` carries key `k` and keys are unique, the chosen index for
/// `k` is `i`.
proof fn lemma_key_index_agrees<V>(s: Seq<(Point3i, V)>, k: Point3i, i: int)
    requires
        seq_keys_unique(s),
        0 <= i < s.len(),
        s[i].0 == k,
    ensures
        seq_has_key(s, k),
        seq_key_index(s, k) == i,
{
    assert(seq_has_key(s, k));
    let j = seq_key_index(s, k);
    assert(0 <= j < s.len() && s[j].0 == k);
    if i < j {
        assert(s[i].0 != s[j].0);
    } else if j < i {
        assert(s[j].0 != s[i].0);
    }
}

/// A duplicate-free vector of chunk keys, used as a set.
pub struct KeyList {
    pub keys: Vec<Point3i>,
}

impl KeyList {
    /// No key appears twice.
    pub open spec fn wf(self) -> bool {
        forall|i: int, j: int| 0 <= i < j < self.keys@.len() ==> self.keys@[i] != self.keys@[j]
    }

    /// Whether `k` is in the set.
    pub open spec fn has(self, k: Point3i) -> bool {
        exists|i: int| 0 <= i < self.keys@.len() && self.keys@[i] == k
    }

    /// Creates an empty key set.
    pub fn new() -> (r: KeyList)
        ensures
            r.wf(),
            forall|k: Point3i| !r.has(k),
            r.keys@.len() == 0,
    {
        KeyList { keys: Vec::new() }
    }

    /// Whether `k` is in the set.
    pub fn contains(&self, k: Point3i) -> (r: bool)
        ensures
            r == self.has(k),
    {
        let n = self.keys.len();
        let mut i: usize = 0;
        while i < n
            invariant
                n == self.keys@.len(),
                i <= n,
                forall|j: int| 0 <= j < i ==> self.keys@[j] != k,
            decreases n - i,
        {
            let e = &self.keys[i];
            if e.x == k.x && e.y == k.y && e.z == k.z {
                proof {
                    assert(self.keys@[i as int] == k);
                }
                return true;
            }
            i += 1;
        }
        false
    }

    /// Adds `k` to the set if it is not already there.
    pub fn add(&mut self, k: Point3i)
        requires
            old(self).wf(),
        ensures
            final(self).wf(),
            final(self).has(k),
            forall|k2: Point3i| k2 != k ==> final(self).has(k2) == old(self).has(k2),
    {
        let ghost pre = self.keys@;
        if !self.contains(k) {
            self.keys.push(k);
            proof {
                assert(self.keys@[pre.len() as int] == k);
                assert forall|k2: Point3i| k2 != k implies self.has(k2) == old(self).has(
                    k2,
                ) by {
                    if old(self).has(k2) {
                        let j = choose|j: int| 0 <= j < pre.len() && pre[j] == k2;
                        assert(self.keys@[j] == k2);
                    }
                    if self.has(k2) {
                        let j = choose|j: int|
                            0 <= j < self.keys@.len() && self.keys@[j] == k2;
                        assert(j < pre.len());
                        assert(pre[j] == k2);
                    }
                }
            }
        }
    }
}

} // verus!
