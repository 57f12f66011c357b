use vstd::prelude::*;

verus! {

/// One slot of the list-indexed encoding: (source, index) is the storage
/// key and the target account is the stored value.
#[derive(Clone, Copy, Debug, PartialEq, Eq, Structural)]
pub struct Slot {
    pub source: u64,
    pub index: u32,
    pub target: u64,
}

/// The (source, index) storage key of a slot.
pub open spec fn slot_key(s: Slot) -> (u64, u32) {
    (s.source, s.index)
}

/// The logical (source, target) pair a slot encodes.
pub open spec fn slot_pair(s: Slot) -> (u64, u64) {
    (s.source, s.target)
}

/// The list-indexed edge store for one category: the admissible fallback
/// encoding that keys each edge by (source, insertion slot) and stores the
/// target as the value, so membership of a (source, target) pair takes a
/// scan over the stored slots. Prefer `EdgeStore`, the direct-keyed
/// encoding with point lookup; this variant exists for compatibility with
/// a list-indexed persisted layout.
pub struct ListStore {
    entries: Vec<Slot>,
}

impl ListStore {
    /// The logical map from (source, index) slots to targets.
    pub closed spec fn slot_map(self) -> Map<(u64, u32), u64> {
        Map::new(
            |k: (u64, u32)|
                exists|i: int| 0 <= i < self.entries@.len() && slot_key(self.entries@[i]) == k,
            |k: (u64, u32)|
                self.entries@[choose|i: int|
                    0 <= i < self.entries@.len() && slot_key(self.entries@[i]) == k].target,
        )
    }

    /// The set of (source, target) pairs present.
    pub closed spec fn pairs(self) -> Set<(u64, u64)> {
        Set::new(
            |p: (u64, u64)|
                exists|i: int| 0 <= i < self.entries@.len() && slot_pair(self.entries@[i]) == p,
        )
    }

    /// The number of slots held.
    pub closed spec fn spec_len(self) -> nat {
        self.entries@.len()
    }

    /// No reused slot and no duplicate edge: distinct entries differ both
    /// in their (source, index) key and in their (source, target) pair.
    pub closed spec fn inv(self) -> bool {
        forall|i: int, j: int|
            0 <= i < j < self.entries@.len() ==> slot_key(self.entries@[i]) != slot_key(
                self.entries@[j],
            ) && slot_pair(self.entries@[i]) != slot_pair(self.entries@[j])
    }

    /// A stored slot is found in the slot map under its key, with its own
    /// target as the value, and its pair is present.
    proof fn lemma_at(self, i: int)
        requires
            self.inv(),
            0 <= i < self.entries@.len(),
        ensures
            self.slot_map().contains_key(slot_key(self.entries@[i])),
            self.slot_map()[slot_key(self.entries@[i])] == self.entries@[i].target,
            self.pairs().contains(slot_pair(self.entries@[i])),
    {
        let k = slot_key(self.entries@[i]);
        assert(self.slot_map().contains_key(k));
        let j = choose|j: int| 0 <= j < self.entries@.len() && slot_key(self.entries@[j]) == k;
        assert(j == i);
    }

    pub fn new() -> (r: ListStore)
        ensures
            r.inv(),
            r.slot_map() == Map::<(u64, u32), u64>::empty(),
            r.pairs() == Set::<(u64, u64)>::empty(),
            r.spec_len() == 0,
    {
        let r = ListStore { entries: Vec::new() };
        proof {
            assert(r.slot_map() =~= Map::<(u64, u32), u64>::empty());
            assert(r.pairs() =~= Set::<(u64, u64)>::empty());
        }
        r
    }

    /// Scan every (slot, value) entry under `source` for one whose value
    /// equals `target`, and return the matching slot key. Under the
    /// no-duplicate invariant at most one slot can match, so which match a
    /// storage engine's iteration order would yield first is irrelevant.
    pub fn find_index(&self, source: u64, target: u64) -> (r: Option<u32>)
        requires
            self.inv(),
        ensures
            r is Some ==> self.slot_map().contains_key((source, r->0)) && self.slot_map()[
                (source, r->0)
            ] == target,
            r is Some <==> self.pairs().contains((source, target)),
    {
        let n = self.entries.len();
        let mut i: usize = 0;
        while i < n
            invariant
                self.inv(),
                n == self.entries@.len(),
                i <= n,
                forall|j: int| 0 <= j < i ==> slot_pair(self.entries@[j]) != (source, target),
            decreases n - i,
        {
            let e = &self.entries[i];
            if e.source == source && e.target == target {
                proof {
                    assert(slot_pair(self.entries@[i as int]) == (source, target));
                    self.lemma_at(i as int);
                }
                return Some(e.index);
            }
            i = i + 1;
        }
        None
    }

    /// True iff an edge (source, target) exists, decided by the scan.
    pub fn contains(&self, source: u64, target: u64) -> (r: bool)
        requires
            self.inv(),
        ensures
            r == self.pairs().contains((source, target)),
    {
        self.find_index(source, target).is_some()
    }

    /// Store the edge (source, target) under the given slot index. The
    /// caller has already checked that neither the slot nor the pair
    /// exists; the ledger is responsible for those checks.
    pub fn insert(&mut self, source: u64, index: u32, target: u64)
        requires
            old(self).inv(),
            !old(self).slot_map().contains_key((source, index)),
            !old(self).pairs().contains((source, target)),
        ensures
            final(self).inv(),
            final(self).slot_map() == old(self).slot_map().insert((source, index), target),
            final(self).pairs() == old(self).pairs().insert((source, target)),
            final(self).spec_len() == old(self).spec_len() + 1,
    {
        let e = Slot { source, index, target };
        self.entries.push(e);
        proof {
            let s0 = old(self).entries@;
            let s1 = self.entries@;
            let k = (source, index);
            let p = (source, target);
            let last = s1.len() - 1;
            assert(forall|i: int| 0 <= i < s0.len() ==> s1[i] == s0[i]);
            assert(slot_key(s1[last]) == k && slot_pair(s1[last]) == p);
            assert forall|i: int, j: int| 0 <= i < j < s1.len() implies slot_key(s1[i])
                != slot_key(s1[j]) && slot_pair(s1[i]) != slot_pair(s1[j]) by {
                if j == last {
                    assert(slot_key(s1[i]) != k);
                    assert(slot_pair(s1[i]) != p);
                }
            }
            assert forall|k2: (u64, u32)|
                true implies #[trigger] self.slot_map().contains_key(k2) == old(
                self,
            ).slot_map().insert(k, target).contains_key(k2) by {
                if k2 != k {
                    if old(self).slot_map().contains_key(k2) {
                        let i = choose|i: int| 0 <= i < s0.len() && slot_key(s0[i]) == k2;
                        assert(slot_key(s1[i]) == k2);
                    } else {
                        if self.slot_map().contains_key(k2) {
                            let i = choose|i: int| 0 <= i < s1.len() && slot_key(s1[i]) == k2;
                            assert(i < s0.len());
                        }
                    }
                }
            }
            assert forall|k2: (u64, u32)| self.slot_map().contains_key(k2)
                implies self.slot_map()[k2] == old(self).slot_map().insert(k, target)[k2] by {
                if k2 == k {
                    self.lemma_at(last);
                } else {
                    let i = choose|i: int| 0 <= i < s1.len() && slot_key(s1[i]) == k2;
                    assert(i < s0.len());
                    self.lemma_at(i);
                    old(self).lemma_at(i);
                }
            }
            assert(self.slot_map() =~= old(self).slot_map().insert(k, target));
            assert forall|p2: (u64, u64)|
                true implies #[trigger] self.pairs().contains(p2) == old(self).pairs().insert(
                p,
            ).contains(p2) by {
                if p2 != p {
                    if old(self).pairs().contains(p2) {
                        let i = choose|i: int| 0 <= i < s0.len() && slot_pair(s0[i]) == p2;
                        assert(slot_pair(s1[i]) == p2);
                    } else {
                        if self.pairs().contains(p2) {
                            let i = choose|i: int| 0 <= i < s1.len() && slot_pair(s1[i]) == p2;
                            assert(i < s0.len());
                        }
                    }
                }
            }
            assert(self.pairs() =~= old(self).pairs().insert(p));
        }
    }

    /// Delete the edge (source, target), wherever its slot sits. The
    /// caller has already checked that it exists; the ledger is
    /// responsible for that check.
    pub fn remove(&mut self, source: u64, target: u64)
        requires
            old(self).inv(),
            old(self).pairs().contains((source, target)),
        ensures
            final(self).inv(),
            final(self).pairs() == old(self).pairs().remove((source, target)),
            final(self).spec_len() == old(self).spec_len() - 1,
            exists|ix: u32|
                old(self).slot_map().contains_key((source, ix)) && old(self).slot_map()[
                    (source, ix)
                ] == target && final(self).slot_map() == old(self).slot_map().remove((source, ix)),
    {
        let ghost p = (source, target);
        let n = self.entries.len();
        let mut i: usize = 0;
        while i < n
            invariant
                *self == *old(self),
                old(self).inv(),
                p == (source, target),
                n == self.entries@.len(),
                i <= n,
                forall|j: int| 0 <= j < i ==> slot_pair(self.entries@[j]) != p,
                old(self).pairs().contains(p),
            decreases n - i,
        {
            let e_source = self.entries[i].source;
            let e_target = self.entries[i].target;
            if e_source == source && e_target == target {
                let ghost ix = self.entries@[i as int].index;
                proof {
                    assert(slot_pair(self.entries@[i as int]) == p);
                    assert(slot_key(self.entries@[i as int]) == (source, ix));
                    self.lemma_at(i as int);
                }
                self.entries.remove(i);
                proof {
                    let s0 = old(self).entries@;
                    let s1 = self.entries@;
                    let ii = i as int;
                    let k = (source, ix);
                    assert(slot_pair(s0[ii]) == p && slot_key(s0[ii]) == k);
                    assert(s1 == s0.remove(ii));
                    s0.remove_ensures(ii);
                    assert(forall|idx: int| 0 <= idx < ii ==> s1[idx] == s0[idx]);
                    assert(forall|idx: int| ii <= idx < s1.len() ==> s1[idx] == s0[idx + 1]);
                    assert forall|a: int, b: int| 0 <= a < b < s1.len() implies slot_key(s1[a])
                        != slot_key(s1[b]) && slot_pair(s1[a]) != slot_pair(s1[b]) by {
                        let a0: int = if a < ii {
                            a
                        } else {
                            a + 1
                        };
                        let b0: int = if b < ii {
                            b
                        } else {
                            b + 1
                        };
                        assert(s1[a] == s0[a0] && s1[b] == s0[b0]);
                    }
                    assert forall|k2: (u64, u32)|
                        true implies #[trigger] self.slot_map().contains_key(k2) == old(
                        self,
                    ).slot_map().remove(k).contains_key(k2) by {
                        if k2 == k {
                            if self.slot_map().contains_key(k2) {
                                let a = choose|a: int| 0 <= a < s1.len() && slot_key(s1[a]) == k2;
                                let a0: int = if a < ii {
                                    a
                                } else {
                                    a + 1
                                };
                                assert(s1[a] == s0[a0]);
                                assert(false);
                            }
                        } else {
                            if old(self).slot_map().contains_key(k2) {
                                let a0 = choose|a0: int|
                                    0 <= a0 < s0.len() && slot_key(s0[a0]) == k2;
                                let a: int = if a0 < ii {
                                    a0
                                } else {
                                    a0 - 1
                                };
                                assert(a0 != ii);
                                assert(s1[a] == s0[a0]);
                                assert(slot_key(s1[a]) == k2);
                            } else {
                                if self.slot_map().contains_key(k2) {
                                    let a = choose|a: int|
                                        0 <= a < s1.len() && slot_key(s1[a]) == k2;
                                    let a0: int = if a < ii {
                                        a
                                    } else {
                                        a + 1
                                    };
                                    assert(s1[a] == s0[a0]);
                                }
                            }
                        }
                    }
                    assert forall|k2: (u64, u32)| self.slot_map().contains_key(k2)
                        implies self.slot_map()[k2] == old(self).slot_map().remove(k)[k2] by {
                        let a = choose|a: int| 0 <= a < s1.len() && slot_key(s1[a]) == k2;
                        let a0: int = if a < ii {
                            a
                        } else {
                            a + 1
                        };
                        assert(s1[a] == s0[a0]);
                        self.lemma_at(a);
                        old(self).lemma_at(a0);
                    }
                    assert(self.slot_map() =~= old(self).slot_map().remove(k));
                    assert forall|p2: (u64, u64)|
                        true implies #[trigger] self.pairs().contains(p2) == old(
                        self,
                    ).pairs().remove(p).contains(p2) by {
                        if p2 == p {
                            if self.pairs().contains(p2) {
                                let a = choose|a: int| 0 <= a < s1.len() && slot_pair(s1[a]) == p2;
                                let a0: int = if a < ii {
                                    a
                                } else {
                                    a + 1
                                };
                                assert(s1[a] == s0[a0]);
                                assert(false);
                            }
                        } else {
                            if old(self).pairs().contains(p2) {
                                let a0 = choose|a0: int|
                                    0 <= a0 < s0.len() && slot_pair(s0[a0]) == p2;
                                let a: int = if a0 < ii {
                                    a0
                                } else {
                                    a0 - 1
                                };
                                assert(a0 != ii);
                                assert(s1[a] == s0[a0]);
                                assert(slot_pair(s1[a]) == p2);
                            } else {
                                if self.pairs().contains(p2) {
                                    let a = choose|a: int|
                                        0 <= a < s1.len() && slot_pair(s1[a]) == p2;
                                    let a0: int = if a < ii {
                                        a
                                    } else {
                                        a + 1
                                    };
                                    assert(s1[a] == s0[a0]);
                                }
                            }
                        }
                    }
                    assert(self.pairs() =~= old(self).pairs().remove(p));
                }
                return;
            }
            i = i + 1;
        }
        proof {
            let a0 = choose|a0: int|
                0 <= a0 < old(self).entries@.len() && slot_pair(old(self).entries@[a0]) == p;
            assert(false);
        }
    }
}

} // verus!
