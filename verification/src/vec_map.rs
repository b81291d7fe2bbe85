//! An association store read as a mathematical map.
//!
//! Entries are kept in a vector with pairwise distinct key views; the view of
//! the whole store is the `Map` from key views to value views.  Every store
//! of the bookkeeping state is one of these.

use vstd::prelude::*;

use crate::keys::StoreKey;

verus! {

/// A store of (key, value) entries with pairwise distinct key views.
pub struct VecMap<K, V> {
    entries: Vec<(K, V)>,
}

impl<K: StoreKey, V: View> VecMap<K, V> {
    /// Key views are pairwise distinct.
    pub closed spec fn wf(&self) -> bool {
        forall|i: int, j: int|
            0 <= i < j < self.entries@.len() ==> self.entries@[i].0@ != self.entries@[j].0@
    }

    closed spec fn spec_contains(&self, k: K::V) -> bool {
        exists|i: int| 0 <= i < self.entries@.len() && self.entries@[i].0@ == k
    }

    closed spec fn spec_index_of(&self, k: K::V) -> int {
        choose|i: int| 0 <= i < self.entries@.len() && self.entries@[i].0@ == k
    }

    proof fn lemma_found_index(&self, k: K::V, i: int)
        requires
            self.wf(),
            0 <= i < self.entries@.len(),
            self.entries@[i].0@ == k,
        ensures
            self.spec_contains(k),
            self.spec_index_of(k) == i,
            self@.contains_key(k),
            self@[k] == self.entries@[i].1@,
    {
        assert(self.spec_contains(k));
        let j = self.spec_index_of(k);
        assert(0 <= j < self.entries@.len() && self.entries@[j].0@ == k);
    }

    /// An empty store.
    pub fn new() -> (r: Self)
        ensures
            r.wf(),
            r@ == Map::<K::V, V::V>::empty(),
    {
        let r = VecMap { entries: Vec::new() };
        proof {
            assert(r@ =~= Map::<K::V, V::V>::empty());
        }
        r
    }

    fn find_index(&self, k: &K) -> (r: Option<usize>)
        requires
            self.wf(),
        ensures
            match r {
                Some(i) => 0 <= i < self.entries@.len() && self.entries@[i as int].0@ == k@,
                None => !self.spec_contains(k@),
            },
    {
        let n = self.entries.len();
        let mut i: usize = 0;
        while i < n
            invariant
                n == self.entries@.len(),
                0 <= i <= n,
                forall|j: int| 0 <= j < i ==> self.entries@[j].0@ != k@,
            decreases n - i,
        {
            if self.entries[i].0.key_eq(k) {
                return Some(i);
            }
            i = i + 1;
        }
        None
    }

    /// The value stored under `k`, if any.
    pub fn get(&self, k: &K) -> (r: Option<&V>)
        requires
            self.wf(),
        ensures
            match r {
                Some(v) => self@.contains_key(k@) && v@ == self@[k@],
                None => !self@.contains_key(k@),
            },
    {
        match self.find_index(k) {
            Some(i) => {
                proof {
                    self.lemma_found_index(k@, i as int);
                }
                Some(&self.entries[i].1)
            },
            None => None,
        }
    }

    /// Stores `v` under `k`, replacing any previous value.
    pub fn insert(&mut self, k: K, v: V)
        requires
            old(self).wf(),
        ensures
            final(self).wf(),
            final(self)@ == old(self)@.insert(k@, v@),
    {
        let ghost gk = k@;
        let ghost gv = v@;
        match self.find_index(&k) {
            Some(i) => {
                proof {
                    self.lemma_found_index(gk, i as int);
                }
                self.entries[i] = (k, v);
                proof {
                    self.lemma_insert_replace(*old(self), gk, gv, i as int);
                }
            },
            None => {
                self.entries.push((k, v));
                proof {
                    self.lemma_insert_fresh(*old(self), gk, gv);
                }
            },
        }
    }

    proof fn lemma_insert_replace(&self, prev: Self, k: K::V, v: V::V, i: int)
        requires
            prev.wf(),
            0 <= i < prev.entries@.len(),
            prev.entries@[i].0@ == k,
            self.entries@.len() == prev.entries@.len(),
            self.entries@[i].0@ == k,
            self.entries@[i].1@ == v,
            forall|j: int|
                0 <= j < prev.entries@.len() && j != i ==> self.entries@[j] == prev.entries@[j],
        ensures
            self.wf(),
            self@ == prev@.insert(k, v),
    {
        assert(forall|j: int|
            0 <= j < self.entries@.len() ==> self.entries@[j].0@ == prev.entries@[j].0@);
        assert forall|x: K::V| self.spec_contains(x) <==> prev.spec_contains(x) by {
            if self.spec_contains(x) {
                let j = choose|j: int|
                    0 <= j < self.entries@.len() && self.entries@[j].0@ == x;
                assert(prev.entries@[j].0@ == x);
            }
            if prev.spec_contains(x) {
                let j = choose|j: int|
                    0 <= j < prev.entries@.len() && prev.entries@[j].0@ == x;
                assert(self.entries@[j].0@ == x);
            }
        }
        assert forall|x: K::V| self@.contains_key(x) implies self@[x] == prev@.insert(k, v)[x] by {
            let j = choose|j: int| 0 <= j < self.entries@.len() && self.entries@[j].0@ == x;
            self.lemma_found_index(x, j);
            if x == k {
                assert(j == i) by {
                    if j != i {
                        assert(self.entries@[j].0@ == self.entries@[i].0@);
                    }
                }
            } else {
                assert(j != i);
                prev.lemma_found_index(x, j);
            }
        }
        assert(self@ =~= prev@.insert(k, v));
    }

    proof fn lemma_insert_fresh(&self, prev: Self, k: K::V, v: V::V)
        requires
            prev.wf(),
            !prev.spec_contains(k),
            self.entries@.len() == prev.entries@.len() + 1,
            self.entries@[prev.entries@.len() as int].0@ == k,
            self.entries@[prev.entries@.len() as int].1@ == v,
            forall|j: int|
                0 <= j < prev.entries@.len() ==> self.entries@[j] == prev.entries@[j],
        ensures
            self.wf(),
            self@ == prev@.insert(k, v),
    {
        let n = prev.entries@.len() as int;
        assert forall|x: K::V| self@.contains_key(x) implies self@[x] == prev@.insert(k, v)[x] by {
            let j = choose|j: int| 0 <= j < self.entries@.len() && self.entries@[j].0@ == x;
            self.lemma_found_index(x, j);
            if x == k {
                assert(j == n) by {
                    if j != n {
                        assert(prev.entries@[j].0@ == k);
                    }
                }
            } else {
                assert(j != n);
                prev.lemma_found_index(x, j);
            }
        }
        assert forall|x: K::V| self.spec_contains(x) <==> (x == k || prev.spec_contains(x)) by {
            if self.spec_contains(x) {
                let j = choose|j: int|
                    0 <= j < self.entries@.len() && self.entries@[j].0@ == x;
                if j != n {
                    assert(prev.entries@[j].0@ == x);
                }
            }
            if prev.spec_contains(x) {
                let j = choose|j: int|
                    0 <= j < prev.entries@.len() && prev.entries@[j].0@ == x;
                assert(self.entries@[j].0@ == x);
            }
        }
        assert(self@ =~= prev@.insert(k, v));
    }

    /// Removes the entry stored under `k`, if any.
    pub fn remove(&mut self, k: &K)
        requires
            old(self).wf(),
        ensures
            final(self).wf(),
            final(self)@ == old(self)@.remove(k@),
    {
        let ghost gk = k@;
        match self.find_index(k) {
            Some(i) => {
                let _ = self.entries.swap_remove(i);
                proof {
                    self.lemma_remove_at(*old(self), gk, i as int);
                }
            },
            None => {
                proof {
                    assert(self@ =~= self@.remove(gk));
                }
            },
        }
    }

    proof fn lemma_remove_at(&self, prev: Self, k: K::V, i: int)
        requires
            prev.wf(),
            0 <= i < prev.entries@.len(),
            prev.entries@[i].0@ == k,
            self.entries@ == prev.entries@.update(i, prev.entries@.last()).drop_last(),
        ensures
            self.wf(),
            self@ == prev@.remove(k),
    {
        let n = prev.entries@.len() as int;
        assert(self.entries@.len() == n - 1);
        assert forall|j: int|
            0 <= j < n - 1 implies #[trigger] self.entries@[j] == if j == i {
                prev.entries@[n - 1]
            } else {
                prev.entries@[j]
            } by {}
        assert forall|x: K::V| self.spec_contains(x) <==> (x != k && prev.spec_contains(x)) by {
            if self.spec_contains(x) {
                let j = choose|j: int|
                    0 <= j < self.entries@.len() && self.entries@[j].0@ == x;
                if j == i {
                    assert(prev.entries@[n - 1].0@ == x);
                    assert(n - 1 != i);
                } else {
                    assert(prev.entries@[j].0@ == x);
                }
                assert(x != k);
            }
            if x != k && prev.spec_contains(x) {
                let j = choose|j: int|
                    0 <= j < prev.entries@.len() && prev.entries@[j].0@ == x;
                assert(j != i);
                if j == n - 1 {
                    if i < n - 1 {
                        assert(self.entries@[i].0@ == x);
                    }
                } else {
                    assert(self.entries@[j].0@ == x);
                }
            }
        }
        assert forall|x: K::V| self@.contains_key(x) implies self@[x] == prev@.remove(k)[x] by {
            let j = choose|j: int| 0 <= j < self.entries@.len() && self.entries@[j].0@ == x;
            self.lemma_found_index(x, j);
            if j == i {
                prev.lemma_found_index(x, n - 1);
            } else {
                prev.lemma_found_index(x, j);
            }
        }
        assert(self@ =~= prev@.remove(k));
    }
}

impl<K: StoreKey, V: View> View for VecMap<K, V> {
    type V = Map<K::V, V::V>;

    closed spec fn view(&self) -> Map<K::V, V::V> {
        Map::new(
            |k: K::V| self.spec_contains(k),
            |k: K::V| self.entries@[self.spec_index_of(k)].1@,
        )
    }
}

} // verus!
