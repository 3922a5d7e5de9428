//! Association tables that model rows of an ordered key-value store.
//!
//! The registry's persisted state is a handful of logical tables, each an
//! insert-or-overwrite mapping with explicit `get`, `contains`, `insert` and
//! `remove` operations.  Two shapes are needed: keys that are a single `u64`
//! (identifiers, positions, accounts) and keys that are a pair of `u64`
//! (an account together with a position).  Both are backed by parallel
//! vectors with duplicate-free keys and are specified by their `Map` view.

use vstd::prelude::*;

verus! {

/// With `s` duplicate-free and `s[i] == k`, the chosen `s.index_of(k)` is `i`.
proof fn lemma_index_of_unique<A>(s: Seq<A>, k: A, i: int)
    requires
        s.no_duplicates(),
        0 <= i < s.len(),
        s[i] == k,
    ensures
        s.contains(k),
        s.index_of(k) == i,
{
    assert(s.contains(k));
    let j = s.index_of(k);
    assert(0 <= j < s.len() && s[j] == k);
}

/// Pushing a key not yet present keeps a key sequence duplicate-free.
proof fn lemma_push_no_duplicates<A>(s: Seq<A>, k: A)
    requires
        s.no_duplicates(),
        !s.contains(k),
    ensures
        s.push(k).no_duplicates(),
{
    let t = s.push(k);
    assert forall|i: int, j: int| 0 <= i < j < t.len() implies t[i] != t[j] by {
        if j == s.len() {
            assert(t[i] == s[i]);
        }
    }
}

/// A table from `u64` keys to values, with insert-or-overwrite semantics.
pub struct Table<T> {
    keys: Vec<u64>,
    vals: Vec<T>,
}

impl<T: Copy> View for Table<T> {
    type V = Map<u64, T>;

    closed spec fn view(&self) -> Map<u64, T> {
        Map::new(
            |k: u64| self.keys@.contains(k),
            |k: u64| self.vals@[self.keys@.index_of(k)],
        )
    }
}

impl<T: Copy> Table<T> {
    /// Every key appears once and carries exactly one value.
    pub closed spec fn wf(self) -> bool {
        &&& self.keys@.no_duplicates()
        &&& self.keys@.len() == self.vals@.len()
    }

    /// A table's domain is finite: it holds at most one entry per stored key.
    pub proof fn lemma_dom_finite(self)
        requires
            self.wf(),
        ensures
            self@.dom().finite(),
    {
        broadcast use vstd::seq_lib::seq_to_set_is_finite;

        assert(self@.dom() =~= self.keys@.to_set());
        self.keys@.unique_seq_to_set();
    }

    pub fn new() -> (t: Self)
        ensures
            t.wf(),
            t@ == Map::<u64, T>::empty(),
    {
        let t = Table { keys: Vec::new(), vals: Vec::new() };
        proof {
            assert(t@ =~= Map::<u64, T>::empty());
        }
        t
    }

    /// Position of `k` among the stored keys, if it is present.
    fn find(&self, k: u64) -> (r: Option<usize>)
        requires
            self.wf(),
        ensures
            match r {
                Some(i) => i < self.keys@.len() && self.keys@[i as int] == k,
                None => !self.keys@.contains(k),
            },
    {
        let mut i: usize = 0;
        while i < self.keys.len()
            invariant
                i <= self.keys@.len(),
                forall|j: int| 0 <= j < i ==> self.keys@[j] != k,
            decreases self.keys@.len() - i,
        {
            if self.keys[i] == k {
                return Some(i);
            }
            i += 1;
        }
        None
    }

    pub fn get(&self, k: u64) -> (r: Option<T>)
        requires
            self.wf(),
        ensures
            r == if self@.dom().contains(k) {
                Some(self@[k])
            } else {
                None::<T>
            },
    {
        match self.find(k) {
            Some(i) => {
                proof {
                    lemma_index_of_unique(self.keys@, k, i as int);
                }
                Some(self.vals[i])
            },
            None => None,
        }
    }

    pub fn contains(&self, k: u64) -> (r: bool)
        requires
            self.wf(),
        ensures
            r == self@.dom().contains(k),
    {
        match self.find(k) {
            Some(_) => true,
            None => false,
        }
    }

    pub fn insert(&mut self, k: u64, v: T)
        requires
            old(self).wf(),
        ensures
            final(self).wf(),
            final(self)@ == old(self)@.insert(k, v),
    {
        let ghost old_keys = self.keys@;
        let ghost old_vals = self.vals@;
        match self.find(k) {
            Some(i) => {
                self.vals[i] = v;
                proof {
                    lemma_index_of_unique(old_keys, k, i as int);
                    assert forall|k2: u64| old_keys.contains(k2) && k2 != k implies
                        self.vals@[old_keys.index_of(k2)] == old_vals[old_keys.index_of(k2)] by {
                        lemma_index_of_unique(old_keys, k2, old_keys.index_of(k2));
                    }
                    assert(self@ =~= old(self)@.insert(k, v));
                }
            },
            None => {
                self.keys.push(k);
                self.vals.push(v);
                proof {
                    lemma_push_no_duplicates(old_keys, k);
                    let new_keys = self.keys@;
                    assert forall|k2: u64| #[trigger] new_keys.contains(k2) implies
                        old_keys.contains(k2) || k2 == k by {
                        let i = choose|i: int| 0 <= i < new_keys.len() && new_keys[i] == k2;
                        if i < old_keys.len() {
                            assert(old_keys[i] == k2);
                        }
                    }
                    assert forall|k2: u64| old_keys.contains(k2) implies
                        #[trigger] new_keys.contains(k2) by {
                        let i = old_keys.index_of(k2);
                        assert(new_keys[i] == k2);
                    }
                    lemma_index_of_unique(new_keys, k, old_keys.len() as int);
                    assert forall|k2: u64| old_keys.contains(k2) implies
                        self.vals@[new_keys.index_of(k2)] == old_vals[old_keys.index_of(k2)] by {
                        let i = old_keys.index_of(k2);
                        lemma_index_of_unique(old_keys, k2, i);
                        lemma_index_of_unique(new_keys, k2, i);
                    }
                    assert(self@ =~= old(self)@.insert(k, v));
                }
            },
        }
    }

    pub fn remove(&mut self, k: u64)
        requires
            old(self).wf(),
        ensures
            final(self).wf(),
            final(self)@ == old(self)@.remove(k),
    {
        let ghost old_keys = self.keys@;
        let ghost old_vals = self.vals@;
        match self.find(k) {
            Some(i) => {
                self.keys.swap_remove(i);
                self.vals.swap_remove(i);
                proof {
                    let iv = i as int;
                    lemma_index_of_unique(old_keys, k, iv);
                    let new_keys = self.keys@;
                    assert forall|p: int, q: int| 0 <= p < q < new_keys.len() implies
                        new_keys[p] != new_keys[q] by {
                        assert(new_keys[p] == old_keys[if p == iv { old_keys.len() - 1 } else { p }]);
                        assert(new_keys[q] == old_keys[if q == iv { old_keys.len() - 1 } else { q }]);
                    }
                    assert forall|k2: u64| #[trigger] new_keys.contains(k2) implies
                        old_keys.contains(k2) && k2 != k by {
                        let p = choose|p: int| 0 <= p < new_keys.len() && new_keys[p] == k2;
                        let q: int = if p == iv { old_keys.len() - 1 } else { p };
                        assert(old_keys[q] == k2);
                    }
                    assert forall|k2: u64| old_keys.contains(k2) && k2 != k implies
                        #[trigger] new_keys.contains(k2) by {
                        let p = old_keys.index_of(k2);
                        lemma_index_of_unique(old_keys, k2, p);
                        if p == old_keys.len() - 1 {
                            assert(p != iv);
                            assert(iv < new_keys.len());
                            assert(new_keys[iv] == k2);
                        } else if p != iv {
                            assert(new_keys[p] == k2);
                        }
                    }
                    assert forall|k2: u64| new_keys.contains(k2) implies
                        self.vals@[new_keys.index_of(k2)] == old_vals[old_keys.index_of(k2)] by {
                        let p = new_keys.index_of(k2);
                        assert(0 <= p < new_keys.len() && new_keys[p] == k2);
                        let q: int = if p == iv { old_keys.len() - 1 } else { p };
                        assert(old_keys[q] == k2);
                        lemma_index_of_unique(old_keys, k2, q);
                        assert(self.vals@[p] == old_vals[q]);
                    }
                    assert(self@ =~= old(self)@.remove(k));
                }
            },
            None => {
                proof {
                    assert(self@ =~= old(self)@.remove(k));
                }
            },
        }
    }
}

/// A table from `(u64, u64)` keys to `u64` values, with insert-or-overwrite
/// semantics.  It carries an owner's enumeration rows, keyed by the account
/// together with a position inside that account's row.
pub struct PairTable {
    keys_a: Vec<u64>,
    keys_b: Vec<u64>,
    vals: Vec<u64>,
}

impl View for PairTable {
    type V = Map<(u64, u64), u64>;

    closed spec fn view(&self) -> Map<(u64, u64), u64> {
        Map::new(
            |p: (u64, u64)| self.pair_keys().contains(p),
            |p: (u64, u64)| self.vals@[self.pair_keys().index_of(p)],
        )
    }
}

impl PairTable {
    /// The stored keys, read off the two parallel key vectors.
    closed spec fn pair_keys(self) -> Seq<(u64, u64)> {
        Seq::new(self.keys_a@.len(), |i: int| (self.keys_a@[i], self.keys_b@[i]))
    }

    /// Every key pair appears once and carries exactly one value.
    pub closed spec fn wf(self) -> bool {
        &&& self.pair_keys().no_duplicates()
        &&& self.keys_a@.len() == self.keys_b@.len()
        &&& self.keys_a@.len() == self.vals@.len()
    }

    pub fn new() -> (t: Self)
        ensures
            t.wf(),
            t@ == Map::<(u64, u64), u64>::empty(),
    {
        let t = PairTable { keys_a: Vec::new(), keys_b: Vec::new(), vals: Vec::new() };
        proof {
            assert(t@ =~= Map::<(u64, u64), u64>::empty());
        }
        t
    }

    /// Position of `(a, b)` among the stored keys, if it is present.
    fn find(&self, a: u64, b: u64) -> (r: Option<usize>)
        requires
            self.wf(),
        ensures
            match r {
                Some(i) => i < self.pair_keys().len() && self.pair_keys()[i as int] == (a, b),
                None => !self.pair_keys().contains((a, b)),
            },
    {
        let mut i: usize = 0;
        while i < self.keys_a.len()
            invariant
                self.wf(),
                i <= self.keys_a@.len(),
                forall|j: int| 0 <= j < i ==> self.pair_keys()[j] != (a, b),
            decreases self.keys_a@.len() - i,
        {
            if self.keys_a[i] == a && self.keys_b[i] == b {
                return Some(i);
            }
            i += 1;
        }
        proof {
            assert forall|j: int| 0 <= j < self.pair_keys().len() implies
                self.pair_keys()[j] != (a, b) by {}
        }
        None
    }

    pub fn get(&self, a: u64, b: u64) -> (r: Option<u64>)
        requires
            self.wf(),
        ensures
            r == if self@.dom().contains((a, b)) {
                Some(self@[(a, b)])
            } else {
                None::<u64>
            },
    {
        match self.find(a, b) {
            Some(i) => {
                proof {
                    lemma_index_of_unique(self.pair_keys(), (a, b), i as int);
                }
                Some(self.vals[i])
            },
            None => None,
        }
    }

    pub fn contains(&self, a: u64, b: u64) -> (r: bool)
        requires
            self.wf(),
        ensures
            r == self@.dom().contains((a, b)),
    {
        match self.find(a, b) {
            Some(_) => true,
            None => false,
        }
    }

    pub fn insert(&mut self, a: u64, b: u64, v: u64)
        requires
            old(self).wf(),
        ensures
            final(self).wf(),
            final(self)@ == old(self)@.insert((a, b), v),
    {
        let ghost old_keys = self.pair_keys();
        let ghost old_vals = self.vals@;
        match self.find(a, b) {
            Some(i) => {
                self.vals[i] = v;
                proof {
                    lemma_index_of_unique(old_keys, (a, b), i as int);
                    assert(self.pair_keys() =~= old_keys);
                    assert forall|p: (u64, u64)| old_keys.contains(p) && p != (a, b) implies
                        self.vals@[old_keys.index_of(p)] == old_vals[old_keys.index_of(p)] by {
                        lemma_index_of_unique(old_keys, p, old_keys.index_of(p));
                    }
                    assert(self@ =~= old(self)@.insert((a, b), v));
                }
            },
            None => {
                self.keys_a.push(a);
                self.keys_b.push(b);
                self.vals.push(v);
                proof {
                    lemma_push_no_duplicates(old_keys, (a, b));
                    let new_keys = self.pair_keys();
                    assert(new_keys =~= old_keys.push((a, b)));
                    assert forall|p: (u64, u64)| #[trigger] new_keys.contains(p) implies
                        old_keys.contains(p) || p == (a, b) by {
                        let i = choose|i: int| 0 <= i < new_keys.len() && new_keys[i] == p;
                        if i < old_keys.len() {
                            assert(old_keys[i] == p);
                        }
                    }
                    assert forall|p: (u64, u64)| old_keys.contains(p) implies
                        #[trigger] new_keys.contains(p) by {
                        let i = old_keys.index_of(p);
                        assert(new_keys[i] == p);
                    }
                    lemma_index_of_unique(new_keys, (a, b), old_keys.len() as int);
                    assert forall|p: (u64, u64)| old_keys.contains(p) implies
                        self.vals@[new_keys.index_of(p)] == old_vals[old_keys.index_of(p)] by {
                        let i = old_keys.index_of(p);
                        lemma_index_of_unique(old_keys, p, i);
                        lemma_index_of_unique(new_keys, p, i);
                    }
                    assert(self@ =~= old(self)@.insert((a, b), v));
                }
            },
        }
    }

    pub fn remove(&mut self, a: u64, b: u64)
        requires
            old(self).wf(),
        ensures
            final(self).wf(),
            final(self)@ == old(self)@.remove((a, b)),
    {
        let ghost old_keys = self.pair_keys();
        let ghost old_vals = self.vals@;
        match self.find(a, b) {
            Some(i) => {
                self.keys_a.swap_remove(i);
                self.keys_b.swap_remove(i);
                self.vals.swap_remove(i);
                proof {
                    let iv = i as int;
                    lemma_index_of_unique(old_keys, (a, b), iv);
                    let new_keys = self.pair_keys();
                    assert(new_keys =~= old_keys.update(iv, old_keys.last()).drop_last());
                    assert forall|p: int, q: int| 0 <= p < q < new_keys.len() implies
                        new_keys[p] != new_keys[q] by {
                        assert(new_keys[p] == old_keys[if p == iv { old_keys.len() - 1 } else { p }]);
                        assert(new_keys[q] == old_keys[if q == iv { old_keys.len() - 1 } else { q }]);
                    }
                    assert forall|p: (u64, u64)| #[trigger] new_keys.contains(p) implies
                        old_keys.contains(p) && p != (a, b) by {
                        let j = choose|j: int| 0 <= j < new_keys.len() && new_keys[j] == p;
                        let q: int = if j == iv { old_keys.len() - 1 } else { j };
                        assert(old_keys[q] == p);
                    }
                    assert forall|p: (u64, u64)| old_keys.contains(p) && p != (a, b) implies
                        #[trigger] new_keys.contains(p) by {
                        let j = old_keys.index_of(p);
                        lemma_index_of_unique(old_keys, p, j);
                        if j == old_keys.len() - 1 {
                            assert(j != iv);
                            assert(iv < new_keys.len());
                            assert(new_keys[iv] == p);
                        } else if j != iv {
                            assert(new_keys[j] == p);
                        }
                    }
                    assert forall|p: (u64, u64)| new_keys.contains(p) implies
                        self.vals@[new_keys.index_of(p)] == old_vals[old_keys.index_of(p)] by {
                        let j = new_keys.index_of(p);
                        assert(0 <= j < new_keys.len() && new_keys[j] == p);
                        let q: int = if j == iv { old_keys.len() - 1 } else { j };
                        assert(old_keys[q] == p);
                        lemma_index_of_unique(old_keys, p, q);
                        assert(self.vals@[j] == old_vals[q]);
                    }
                    assert(self@ =~= old(self)@.remove((a, b)));
                }
            },
            None => {
                proof {
                    assert(self@ =~= old(self)@.remove((a, b)));
                }
            },
        }
    }
}

} // verus!
