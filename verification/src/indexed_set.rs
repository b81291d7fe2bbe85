//! The indexed membership set.
//!
//! Per group key `G` the set keeps an unordered collection of members:
//! insert-if-absent, remove-if-present, and membership, count and positional
//! queries.  The backing representation is one sequence per group plus an
//! index store mapping (group, member) to the member's one-based position,
//! so neither membership tests nor removal ever scan a member list; a
//! recorded position of zero, represented here by the absence of an index
//! entry, means "not a member" — callers observe this through `contains`.
//! Removal is by swap-remove: the removed slot is overwritten with the last
//! element and the sequence shrinks by one, so no relative order of members
//! is promised.

use vstd::prelude::*;

use crate::keys::GroupMemberKey;
use crate::keys::StoreKey;
use crate::vec_map::VecMap;

verus! {

/// The sequence `s` after swap-removing position `i`: the last element moves
/// into slot `i` and the sequence shrinks by one.
pub open spec fn swap_remove_seq(s: Seq<u64>, i: int) -> Seq<u64> {
    s.update(i, s.last()).drop_last()
}

/// An unordered membership collection per group key, with a one-based
/// positional index per (group, member) pair.
pub struct IndexedSet<G> {
    lists: VecMap<G, Vec<u64>>,
    pos1: VecMap<GroupMemberKey<G>, usize>,
}

impl<G: StoreKey> IndexedSet<G> {
    /// The backing sequences, by group view.
    pub closed spec fn lists_map(&self) -> Map<G::V, Seq<u64>> {
        self.lists@
    }

    /// The recorded one-based positions, by (group, member) view.
    pub closed spec fn pos_map(&self) -> Map<(G::V, u64), usize> {
        self.pos1@
    }

    /// The backing sequence of group `g`; empty when the group was never seen.
    pub open spec fn members_of(&self, g: G::V) -> Seq<u64> {
        if self.lists_map().contains_key(g) {
            self.lists_map()[g]
        } else {
            Seq::empty()
        }
    }

    /// Membership of `m` in group `g`.
    pub open spec fn spec_contains(&self, g: G::V, m: u64) -> bool {
        self.members_of(g).contains(m)
    }

    /// The one-based position recorded for (g, m); 0 means absent.
    pub open spec fn spec_index1(&self, g: G::V, m: u64) -> usize {
        if self.pos_map().contains_key((g, m)) {
            self.pos_map()[(g, m)]
        } else {
            0
        }
    }

    /// The index store is exactly the inverse of the backing sequences.
    pub closed spec fn wf(&self) -> bool {
        &&& self.lists.wf()
        &&& self.pos1.wf()
        &&& forall|g: G::V, m: u64|
            #[trigger] self.pos_map().contains_key((g, m)) ==> {
                &&& 1 <= self.pos_map()[(g, m)] <= self.members_of(g).len()
                &&& self.members_of(g)[self.pos_map()[(g, m)] - 1] == m
            }
        &&& forall|g: G::V, i: int|
            0 <= i < self.members_of(g).len() ==> {
                &&& #[trigger] self.pos_map().contains_key((g, self.members_of(g)[i]))
                &&& self.pos_map()[(g, self.members_of(g)[i])] == i + 1
            }
    }

    /// The zero sentinel is exact: a recorded position is zero exactly for
    /// non-members, and a member's recorded position points at it.
    pub proof fn lemma_index1(&self, g: G::V, m: u64)
        requires
            self.wf(),
        ensures
            (self.spec_index1(g, m) == 0) <==> !self.spec_contains(g, m),
            self.spec_contains(g, m) ==> {
                &&& 1 <= self.spec_index1(g, m) <= self.members_of(g).len()
                &&& self.members_of(g)[self.spec_index1(g, m) - 1] == m
            },
    {
        if self.spec_contains(g, m) {
            let i = choose|i: int|
                0 <= i < self.members_of(g).len() && self.members_of(g)[i] == m;
            assert(self.pos_map().contains_key((g, self.members_of(g)[i])));
        }
    }

    /// The backing sequence of each group enumerates exactly the present
    /// members: no duplicates, no gaps, and its length is the number of
    /// distinct members present.
    pub proof fn lemma_enumerates(&self, g: G::V)
        requires
            self.wf(),
        ensures
            self.members_of(g).no_duplicates(),
            forall|i: int|
                0 <= i < self.members_of(g).len() ==> self.spec_contains(
                    g,
                    #[trigger] self.members_of(g)[i],
                ),
            forall|m: u64|
                #[trigger] self.spec_contains(g, m) ==> exists|i: int|
                    0 <= i < self.members_of(g).len() && self.members_of(g)[i] == m,
            self.members_of(g).to_set().len() == self.members_of(g).len(),
    {
        let s = self.members_of(g);
        assert forall|i: int, j: int|
            0 <= i < s.len() && 0 <= j < s.len() && i != j implies s[i] != s[j] by {
            assert(self.pos_map().contains_key((g, s[i])));
            assert(self.pos_map().contains_key((g, s[j])));
        }
        s.unique_seq_to_set();
    }

    /// Removing a present member and then appending a genuinely new one never
    /// resurrects the removed member and leaves the size unchanged: `pre`,
    /// `mid` and `post` are the states before the removal, after it, and
    /// after the addition.
    pub proof fn lemma_remove_then_add(pre: Self, mid: Self, post: Self, g: G::V, m: u64, m2: u64)
        requires
            pre.wf(),
            pre.spec_contains(g, m),
            !pre.spec_contains(g, m2),
            m2 != m,
            mid.members_of(g) == swap_remove_seq(
                pre.members_of(g),
                pre.spec_index1(g, m) - 1,
            ),
            post.members_of(g) == mid.members_of(g).push(m2),
        ensures
            !post.spec_contains(g, m),
            post.members_of(g).len() == pre.members_of(g).len(),
            post.members_of(g).no_duplicates(),
    {
        let s = pre.members_of(g);
        let i = pre.spec_index1(g, m) - 1;
        pre.lemma_index1(g, m);
        pre.lemma_enumerates(g);
        let s1 = swap_remove_seq(s, i);
        assert forall|j: int| 0 <= j < s1.len() implies s1[j] != m && s1[j] != m2 by {
            if j == i {
                assert(s1[j] == s[s.len() - 1]);
            } else {
                assert(s1[j] == s[j]);
            }
            assert(s.contains(s1[j]));
        }
        let s2 = post.members_of(g);
        assert forall|j: int| 0 <= j < s2.len() implies s2[j] != m by {
            if j < s1.len() {
                assert(s2[j] == s1[j]);
            }
        }
        assert(!s2.contains(m));
        assert forall|j: int, k: int|
            0 <= j < s2.len() && 0 <= k < s2.len() && j != k implies s2[j] != s2[k] by {
            if j < s1.len() && k < s1.len() {
                if j == i {
                    assert(s1[j] == s[s.len() - 1]);
                } else {
                    assert(s1[j] == s[j]);
                }
                if k == i {
                    assert(s1[k] == s[s.len() - 1]);
                } else {
                    assert(s1[k] == s[k]);
                }
                if i < s.len() - 1 && j != i && k != i && s1[j] == s1[k] {
                    assert(s[j] == s[k]);
                }
            }
        }
    }

    /// An empty collection: every group is empty.
    pub fn new() -> (r: Self)
        ensures
            r.wf(),
            forall|g: G::V| r.members_of(g) == Seq::<u64>::empty(),
            r.lists_map() == Map::<G::V, Seq<u64>>::empty(),
            r.pos_map() == Map::<(G::V, u64), usize>::empty(),
    {
        IndexedSet { lists: VecMap::new(), pos1: VecMap::new() }
    }

    fn index_plus_one(&self, g: &G, m: u64) -> (r: usize)
        requires
            self.wf(),
        ensures
            r == self.spec_index1(g@, m),
            (r == 0) == !self.spec_contains(g@, m),
    {
        proof {
            self.lemma_index1(g@, m);
        }
        let key = GroupMemberKey { group: g.key_dup(), member: m };
        match self.pos1.get(&key) {
            Some(p) => *p,
            None => 0,
        }
    }

    /// Whether `m` is currently a member of group `g`.
    pub fn contains(&self, g: &G, m: u64) -> (b: bool)
        requires
            self.wf(),
        ensures
            b == self.spec_contains(g@, m),
    {
        self.index_plus_one(g, m) != 0
    }

    /// The number of members of group `g`.
    pub fn count(&self, g: &G) -> (n: usize)
        requires
            self.wf(),
        ensures
            n == self.members_of(g@).len(),
    {
        match self.lists.get(g) {
            Some(v) => v.len(),
            None => 0,
        }
    }

    /// Adds `m` to group `g`; a no-op when `m` is already a member.  A new
    /// member is appended to the backing sequence and its one-based position
    /// is recorded.
    pub fn add(&mut self, g: &G, m: u64)
        requires
            old(self).wf(),
        ensures
            final(self).wf(),
            old(self).spec_contains(g@, m) ==> *final(self) == *old(self),
            !old(self).spec_contains(g@, m) ==> {
                &&& final(self).members_of(g@) == old(self).members_of(g@).push(m)
                &&& forall|h: G::V|
                    h != g@ ==> final(self).members_of(h) == old(self).members_of(h)
            },
            final(self).spec_contains(g@, m),
    {
        let ip = self.index_plus_one(g, m);
        if ip != 0 {
            return;
        }
        let mut list = match self.lists.get(g) {
            Some(v) => copy_list(v),
            None => Vec::new(),
        };
        list.push(m);
        let n = list.len();
        self.lists.insert(g.key_dup(), list);
        self.pos1.insert(GroupMemberKey { group: g.key_dup(), member: m }, n);
        proof {
            Self::lemma_add_wf(*old(self), *self, g@, m, n);
        }
    }

    proof fn lemma_add_wf(prev: Self, cur: Self, g: G::V, m: u64, n: usize)
        requires
            prev.wf(),
            !prev.spec_contains(g, m),
            cur.lists.wf(),
            cur.pos1.wf(),
            n == prev.members_of(g).len() + 1,
            cur.lists_map() == prev.lists_map().insert(g, prev.members_of(g).push(m)),
            cur.pos_map() == prev.pos_map().insert((g, m), n),
        ensures
            cur.wf(),
            cur.members_of(g) == prev.members_of(g).push(m),
            forall|h: G::V| h != g ==> cur.members_of(h) == prev.members_of(h),
            cur.spec_contains(g, m),
    {
        let s = prev.members_of(g);
        let s2 = cur.members_of(g);
        assert(s2 == s.push(m));
        assert forall|h: G::V| h != g implies cur.members_of(h) == prev.members_of(h) by {}
        assert forall|h: G::V, x: u64|
            #[trigger] cur.pos_map().contains_key((h, x)) implies {
                &&& 1 <= cur.pos_map()[(h, x)] <= cur.members_of(h).len()
                &&& cur.members_of(h)[cur.pos_map()[(h, x)] - 1] == x
            } by {
            if h == g && x == m {
                assert(s2[n - 1] == m);
            } else {
                assert(prev.pos_map().contains_key((h, x)));
                let v = prev.pos_map()[(h, x)];
                assert(prev.members_of(h)[v - 1] == x);
                if h == g {
                    assert(s2[v - 1] == s[v - 1]);
                }
            }
        }
        assert forall|h: G::V, i: int|
            0 <= i < cur.members_of(h).len() implies {
                &&& #[trigger] cur.pos_map().contains_key((h, cur.members_of(h)[i]))
                &&& cur.pos_map()[(h, cur.members_of(h)[i])] == i + 1
            } by {
            if h == g {
                if i < s.len() {
                    assert(s2[i] == s[i]);
                    assert(s.contains(s[i]));
                    assert(s[i] != m);
                    assert(prev.pos_map().contains_key((g, s[i])));
                } else {
                    assert(s2[i] == m);
                }
            } else {
                assert(prev.pos_map().contains_key((h, prev.members_of(h)[i])));
                assert((h, cur.members_of(h)[i]) != (g, m));
            }
        }
        assert(s2[n - 1] == m && s2.contains(m));
    }

    /// Removes `m` from group `g`; a no-op when `m` is not a member.  The
    /// removed slot is overwritten by the last element (unless it is the last
    /// element), whose recorded position moves accordingly, and the removed
    /// member's index entry is erased.
    pub fn remove(&mut self, g: &G, m: u64)
        requires
            old(self).wf(),
        ensures
            final(self).wf(),
            !old(self).spec_contains(g@, m) ==> *final(self) == *old(self),
            old(self).spec_contains(g@, m) ==> {
                &&& final(self).members_of(g@) == swap_remove_seq(
                    old(self).members_of(g@),
                    old(self).spec_index1(g@, m) - 1,
                )
                &&& final(self).members_of(g@).len() == old(self).members_of(g@).len() - 1
                &&& forall|h: G::V|
                    h != g@ ==> final(self).members_of(h) == old(self).members_of(h)
            },
            !final(self).spec_contains(g@, m),
            forall|x: u64|
                x != m ==> final(self).spec_contains(g@, x) == old(self).spec_contains(g@, x),
    {
        let ip = self.index_plus_one(g, m);
        if ip == 0 {
            return;
        }
        proof {
            self.lemma_index1(g@, m);
            assert(self.lists_map().contains_key(g@));
        }
        let mut list = match self.lists.get(g) {
            Some(v) => copy_list(v),
            None => Vec::new(),
        };
        let idx = ip - 1;
        let _ = list.swap_remove(idx);
        if idx < list.len() {
            let moved = list[idx];
            self.pos1.insert(GroupMemberKey { group: g.key_dup(), member: moved }, ip);
        }
        self.pos1.remove(&GroupMemberKey { group: g.key_dup(), member: m });
        self.lists.insert(g.key_dup(), list);
        proof {
            Self::lemma_remove_wf(*old(self), *self, g@, m);
        }
    }

    proof fn lemma_remove_wf(prev: Self, cur: Self, g: G::V, m: u64)
        requires
            prev.wf(),
            prev.spec_contains(g, m),
            cur.lists.wf(),
            cur.pos1.wf(),
            cur.lists_map() == prev.lists_map().insert(
                g,
                swap_remove_seq(prev.members_of(g), prev.spec_index1(g, m) - 1),
            ),
            cur.pos_map() == if prev.spec_index1(g, m) < prev.members_of(g).len() {
                prev.pos_map().insert(
                    (g, prev.members_of(g).last()),
                    prev.spec_index1(g, m),
                ).remove((g, m))
            } else {
                prev.pos_map().remove((g, m))
            },
        ensures
            cur.wf(),
            cur.members_of(g) == swap_remove_seq(
                prev.members_of(g),
                prev.spec_index1(g, m) - 1,
            ),
            cur.members_of(g).len() == prev.members_of(g).len() - 1,
            forall|h: G::V| h != g ==> cur.members_of(h) == prev.members_of(h),
            !cur.spec_contains(g, m),
            forall|x: u64| x != m ==> cur.spec_contains(g, x) == prev.spec_contains(g, x),
    {
        let s = prev.members_of(g);
        let n = s.len() as int;
        prev.lemma_index1(g, m);
        prev.lemma_enumerates(g);
        let i = prev.spec_index1(g, m) - 1;
        assert(0 <= i < n && s[i] == m);
        let s2 = cur.members_of(g);
        assert(s2 == swap_remove_seq(s, i));
        assert(s2.len() == n - 1);
        assert forall|j: int|
            0 <= j < n - 1 implies #[trigger] s2[j] == (if j == i {
                s[n - 1]
            } else {
                s[j]
            }) by {}
        assert forall|h: G::V| h != g implies cur.members_of(h) == prev.members_of(h) by {}
        // the removed member is gone from the backing sequence
        assert forall|j: int| 0 <= j < n - 1 implies s2[j] != m by {
            if j == i {
                assert(s2[j] == s[n - 1]);
                assert(i != n - 1);
            }
        }
        assert(!s2.contains(m));
        // every other member keeps its membership
        assert forall|x: u64| x != m implies cur.spec_contains(g, x) == prev.spec_contains(g, x) by {
            if s2.contains(x) {
                let j = choose|j: int| 0 <= j < s2.len() && s2[j] == x;
                if j == i {
                    assert(s[n - 1] == x);
                } else {
                    assert(s[j] == x);
                }
                assert(s.contains(x));
            }
            if s.contains(x) {
                let j = choose|j: int| 0 <= j < s.len() && s[j] == x;
                assert(j != i);
                if j == n - 1 {
                    assert(i < n - 1);
                    assert(s2[i] == x);
                } else {
                    assert(s2[j] == x);
                }
                assert(s2.contains(x));
            }
        }
        // the index store is again the inverse of the backing sequences
        assert forall|h: G::V, x: u64|
            #[trigger] cur.pos_map().contains_key((h, x)) implies {
                &&& 1 <= cur.pos_map()[(h, x)] <= cur.members_of(h).len()
                &&& cur.members_of(h)[cur.pos_map()[(h, x)] - 1] == x
            } by {
            if h == g {
                assert(x != m);
                if i < n - 1 && x == s[n - 1] {
                    assert(cur.pos_map()[(h, x)] == i + 1);
                    assert(s2[i] == s[n - 1]);
                } else {
                    assert(prev.pos_map().contains_key((h, x)));
                    let v = prev.pos_map()[(h, x)];
                    assert(s[v - 1] == x);
                    assert(v - 1 != i);
                    assert(v - 1 != n - 1);
                    assert(s2[v - 1] == s[v - 1]);
                }
            } else {
                assert(prev.pos_map().contains_key((h, x)));
            }
        }
        assert forall|h: G::V, j: int|
            0 <= j < cur.members_of(h).len() implies {
                &&& #[trigger] cur.pos_map().contains_key((h, cur.members_of(h)[j]))
                &&& cur.pos_map()[(h, cur.members_of(h)[j])] == j + 1
            } by {
            if h == g {
                if j == i && i < n - 1 {
                    assert(s2[j] == s[n - 1]);
                } else {
                    assert(s2[j] == s[j]);
                    assert(s[j] != m);
                    assert(j != n - 1);
                    assert(s[j] != s[n - 1]);
                    assert(prev.pos_map().contains_key((g, s[j])));
                    assert(prev.pos_map()[(g, s[j])] == j + 1);
                }
            } else {
                assert(prev.pos_map().contains_key((h, prev.members_of(h)[j])));
            }
        }
    }

    /// A copy of group `g`'s backing sequence.
    pub fn members_vec(&self, g: &G) -> (r: Vec<u64>)
        requires
            self.wf(),
        ensures
            r@ == self.members_of(g@),
    {
        match self.lists.get(g) {
            Some(v) => copy_list(v),
            None => Vec::new(),
        }
    }

    /// The member of group `g` at zero-based position `i`.
    pub fn at(&self, g: &G, i: usize) -> (m: u64)
        requires
            self.wf(),
            i < self.members_of(g@).len(),
        ensures
            m == self.members_of(g@)[i as int],
    {
        let list = self.lists.get(g).unwrap();
        list[i]
    }
}

fn copy_list(v: &Vec<u64>) -> (r: Vec<u64>)
    ensures
        r@ == v@,
{
    let mut r: Vec<u64> = Vec::new();
    let n = v.len();
    let mut i: usize = 0;
    while i < n
        invariant
            n == v@.len(),
            0 <= i <= n,
            r@ == v@.take(i as int),
        decreases n - i,
    {
        r.push(v[i]);
        proof {
            assert(r@ =~= v@.take(i as int + 1));
        }
        i = i + 1;
    }
    proof {
        assert(r@ =~= v@);
    }
    r
}

} // verus!
