use vstd::prelude::*;

verus! {

/// One directed edge of a single category, tagged with the insertion-order
/// index it was stored under.
#[derive(Clone, Copy, Debug, PartialEq, Eq, Structural)]
pub struct Edge {
    pub source: u64,
    pub target: u64,
    pub index: u32,
}

/// The (source, target) pair an edge is keyed by.
pub open spec fn edge_key(e: Edge) -> (u64, u64) {
    (e.source, e.target)
}

/// No two edges of the sequence share a (source, target) pair.
spec fn seq_nodup(s: Seq<Edge>) -> bool {
    forall|i: int, j: int| 0 <= i < j < s.len() ==> edge_key(s[i]) != edge_key(s[j])
}

/// The set of pairs the sequence holds an edge for.
spec fn seq_key_set(s: Seq<Edge>) -> Set<(u64, u64)> {
    Set::new(|k: (u64, u64)| exists|i: int| 0 <= i < s.len() && edge_key(s[i]) == k)
}

/// Without duplicate pairs, the pair set has exactly one member per edge.
proof fn lemma_key_set_card(s: Seq<Edge>)
    requires
        seq_nodup(s),
    ensures
        seq_key_set(s).finite(),
        seq_key_set(s).len() == s.len(),
    decreases s.len(),
{
    if s.len() == 0 {
        assert(seq_key_set(s) =~= Set::<(u64, u64)>::empty());
    } else {
        let p = s.drop_last();
        let last = s.last();
        assert(forall|i: int| 0 <= i < p.len() ==> p[i] == s[i]);
        lemma_key_set_card(p);
        assert(!seq_key_set(p).contains(edge_key(last)));
        assert(seq_key_set(s) =~= seq_key_set(p).insert(edge_key(last)));
        vstd::set::axiom_set_insert_len(seq_key_set(p), edge_key(last));
    }
}

/// The direct-keyed edge store for one category: a logical map from
/// (source, target) to the insertion-order index, holding at most one edge
/// per pair. Point lookup, point insert and point delete are the whole
/// interface; no scan is ever needed to decide membership.
pub struct EdgeStore {
    entries: Vec<Edge>,
}

impl EdgeStore {
    /// The logical map this store represents.
    pub closed spec fn edge_map(self) -> Map<(u64, u64), u32> {
        Map::new(
            |k: (u64, u64)|
                exists|i: int| 0 <= i < self.entries@.len() && edge_key(self.entries@[i]) == k,
            |k: (u64, u64)|
                self.entries@[choose|i: int|
                    0 <= i < self.entries@.len() && edge_key(self.entries@[i]) == k].index,
        )
    }

    /// The number of edges held.
    pub closed spec fn spec_len(self) -> nat {
        self.entries@.len()
    }

    /// No two stored edges share a (source, target) pair.
    pub closed spec fn inv(self) -> bool {
        seq_nodup(self.entries@)
    }

    /// A stored edge is found in the logical map under its pair, with its
    /// own index as the value.
    proof fn lemma_at(self, i: int)
        requires
            self.inv(),
            0 <= i < self.entries@.len(),
        ensures
            self.edge_map().contains_key(edge_key(self.entries@[i])),
            self.edge_map()[edge_key(self.entries@[i])] == self.entries@[i].index,
    {
        let k = edge_key(self.entries@[i]);
        assert(self.edge_map().contains_key(k));
        let j = choose|j: int| 0 <= j < self.entries@.len() && edge_key(self.entries@[j]) == k;
        assert(j == i);
    }

    /// Under the no-duplicate invariant the logical map is finite and holds
    /// exactly as many pairs as the store holds edges.
    pub proof fn lemma_card(self)
        requires
            self.inv(),
        ensures
            self.edge_map().dom().finite(),
            self.edge_map().dom().len() == self.spec_len(),
    {
        lemma_key_set_card(self.entries@);
        assert(self.edge_map().dom() =~= seq_key_set(self.entries@));
    }

    /// A pair in the logical map guarantees the store is non-empty.
    pub proof fn lemma_contains_nonempty(self, k: (u64, u64))
        requires
            self.edge_map().contains_key(k),
        ensures
            self.spec_len() >= 1,
    {
    }

    pub fn new() -> (r: EdgeStore)
        ensures
            r.inv(),
            r.edge_map() == Map::<(u64, u64), u32>::empty(),
            r.spec_len() == 0,
    {
        let r = EdgeStore { entries: Vec::new() };
        proof {
            assert(r.edge_map() =~= Map::<(u64, u64), u32>::empty());
        }
        r
    }

    /// True iff an edge (source, target) exists in this category.
    pub fn contains(&self, source: u64, target: u64) -> (r: bool)
        ensures
            r == self.edge_map().contains_key((source, target)),
    {
        let n = self.entries.len();
        let mut i: usize = 0;
        while i < n
            invariant
                n == self.entries@.len(),
                i <= n,
                forall|j: int| 0 <= j < i ==> edge_key(self.entries@[j]) != (source, target),
            decreases n - i,
        {
            let e = &self.entries[i];
            if e.source == source && e.target == target {
                assert(edge_key(self.entries@[i as int]) == (source, target));
                return true;
            }
            i = i + 1;
        }
        false
    }

    /// The number of edges held.
    pub fn len(&self) -> (r: usize)
        ensures
            r == self.spec_len(),
    {
        self.entries.len()
    }

    /// Recount-style duplicate check: true iff no two stored edges share a
    /// (source, target) pair. This full scan is an offline consistency
    /// tool; the verified mutation path keeps the invariant by
    /// construction and never needs it.
    pub fn check_no_duplicates(&self) -> (r: bool)
        ensures
            r == self.inv(),
    {
        let n = self.entries.len();
        let mut i: usize = 0;
        while i < n
            invariant
                n == self.entries@.len(),
                i <= n,
                forall|a: int, b: int|
                    0 <= a < b < n && a < i ==> edge_key(self.entries@[a]) != edge_key(
                        self.entries@[b],
                    ),
            decreases n - i,
        {
            let mut j: usize = i + 1;
            while j < n
                invariant
                    n == self.entries@.len(),
                    i < j <= n,
                    forall|b: int|
                        i < b < j ==> edge_key(self.entries@[i as int]) != edge_key(
                            self.entries@[b],
                        ),
                decreases n - j,
            {
                if self.entries[i].source == self.entries[j].source && self.entries[i].target
                    == self.entries[j].target {
                    assert(edge_key(self.entries@[i as int]) == edge_key(self.entries@[j as int]));
                    return false;
                }
                j = j + 1;
            }
            i = i + 1;
        }
        true
    }

    /// The insertion-order index stored for (source, target), if present.
    pub fn get(&self, source: u64, target: u64) -> (r: Option<u32>)
        requires
            self.inv(),
        ensures
            r is Some <==> self.edge_map().contains_key((source, target)),
            r is Some ==> r->0 == self.edge_map()[(source, target)],
    {
        let n = self.entries.len();
        let mut i: usize = 0;
        while i < n
            invariant
                self.inv(),
                n == self.entries@.len(),
                i <= n,
                forall|j: int| 0 <= j < i ==> edge_key(self.entries@[j]) != (source, target),
            decreases n - i,
        {
            let e = &self.entries[i];
            if e.source == source && e.target == target {
                proof {
                    self.lemma_at(i as int);
                }
                return Some(e.index);
            }
            i = i + 1;
        }
        None
    }

    /// Store the edge (source, target) under the given insertion-order
    /// index. The caller has already checked that no such edge exists; the
    /// ledger is responsible for that check.
    pub fn insert(&mut self, source: u64, target: u64, index: u32)
        requires
            old(self).inv(),
            !old(self).edge_map().contains_key((source, target)),
        ensures
            final(self).inv(),
            final(self).edge_map() == old(self).edge_map().insert((source, target), index),
            final(self).spec_len() == old(self).spec_len() + 1,
    {
        let e = Edge { source, target, index };
        self.entries.push(e);
        proof {
            let s0 = old(self).entries@;
            let s1 = self.entries@;
            let k = (source, target);
            assert(forall|i: int| 0 <= i < s0.len() ==> s1[i] == s0[i]);
            assert(edge_key(s1[s1.len() - 1]) == k);
            assert forall|i: int, j: int| 0 <= i < j < s1.len() implies edge_key(s1[i])
                != edge_key(s1[j]) by {
                if j == s1.len() - 1 {
                    assert(edge_key(s1[i]) != k);
                }
            }
            assert forall|k2: (u64, u64)|
                true implies #[trigger] self.edge_map().contains_key(k2) == old(
                self,
            ).edge_map().insert(k, index).contains_key(k2) by {
                if k2 == k {
                    assert(self.edge_map().contains_key(k2));
                } else {
                    if old(self).edge_map().contains_key(k2) {
                        let i = choose|i: int| 0 <= i < s0.len() && edge_key(s0[i]) == k2;
                        assert(edge_key(s1[i]) == k2);
                    } else {
                        if self.edge_map().contains_key(k2) {
                            let i = choose|i: int| 0 <= i < s1.len() && edge_key(s1[i]) == k2;
                            assert(i < s0.len());
                        }
                    }
                }
            }
            assert forall|k2: (u64, u64)| self.edge_map().contains_key(k2) implies self.edge_map()[k2]
                == old(self).edge_map().insert(k, index)[k2] by {
                if k2 == k {
                    self.lemma_at(s1.len() - 1);
                } else {
                    let i = choose|i: int| 0 <= i < s1.len() && edge_key(s1[i]) == k2;
                    assert(i < s0.len());
                    self.lemma_at(i);
                    old(self).lemma_at(i);
                }
            }
            assert(self.edge_map() =~= old(self).edge_map().insert(k, index));
        }
    }

    /// Delete the edge (source, target). The caller has already checked
    /// that it exists; the ledger is responsible for that check.
    pub fn remove(&mut self, source: u64, target: u64)
        requires
            old(self).inv(),
            old(self).edge_map().contains_key((source, target)),
        ensures
            final(self).inv(),
            final(self).edge_map() == old(self).edge_map().remove((source, target)),
            final(self).spec_len() == old(self).spec_len() - 1,
    {
        let ghost k = (source, target);
        let n = self.entries.len();
        let mut i: usize = 0;
        while i < n
            invariant
                *self == *old(self),
                old(self).inv(),
                k == (source, target),
                n == self.entries@.len(),
                i <= n,
                forall|j: int| 0 <= j < i ==> edge_key(self.entries@[j]) != k,
                old(self).edge_map().contains_key(k),
            decreases n - i,
        {
            let e_source = self.entries[i].source;
            let e_target = self.entries[i].target;
            if e_source == source && e_target == target {
                proof {
                    assert(edge_key(self.entries@[i as int]) == k);
                }
                self.entries.remove(i);
                proof {
                    let s0 = old(self).entries@;
                    let s1 = self.entries@;
                    let ii = i as int;
                    assert(edge_key(s0[ii]) == k);
                    assert(s1 == s0.remove(ii));
                    s0.remove_ensures(ii);
                    assert(forall|idx: int| 0 <= idx < ii ==> s1[idx] == s0[idx]);
                    assert(forall|idx: int| ii <= idx < s1.len() ==> s1[idx] == s0[idx + 1]);
                    // every surviving entry keeps its pair distinct from the rest
                    assert forall|a: int, b: int| 0 <= a < b < s1.len() implies edge_key(s1[a])
                        != edge_key(s1[b]) by {
                        let a0: int = if a < ii {
                            a
                        } else {
                            a + 1
                        };
                        let b0: int = if b < ii {
                            b
                        } else {
                            b + 1
                        };
                        assert(s1[a] == s0[a0] && s1[b] == s0[b0]);
                    }
                    assert forall|k2: (u64, u64)|
                        true implies #[trigger] self.edge_map().contains_key(k2) == old(
                        self,
                    ).edge_map().remove(k).contains_key(k2) by {
                        if k2 == k {
                            if self.edge_map().contains_key(k2) {
                                let a = choose|a: int|
                                    0 <= a < s1.len() && edge_key(s1[a]) == k2;
                                let a0: int = if a < ii {
                                    a
                                } else {
                                    a + 1
                                };
                                assert(s1[a] == s0[a0]);
                                assert(edge_key(s0[a0]) == edge_key(s0[ii]));
                                assert(false);
                            }
                        } else {
                            if old(self).edge_map().contains_key(k2) {
                                let a0 = choose|a0: int|
                                    0 <= a0 < s0.len() && edge_key(s0[a0]) == k2;
                                let a: int = if a0 < ii {
                                    a0
                                } else {
                                    a0 - 1
                                };
                                assert(a0 != ii);
                                assert(s1[a] == s0[a0]);
                                assert(edge_key(s1[a]) == k2);
                            } else {
                                if self.edge_map().contains_key(k2) {
                                    let a = choose|a: int|
                                        0 <= a < s1.len() && edge_key(s1[a]) == k2;
                                    let a0: int = if a < ii {
                                        a
                                    } else {
                                        a + 1
                                    };
                                    assert(s1[a] == s0[a0]);
                                }
                            }
                        }
                    }
                    assert forall|k2: (u64, u64)| self.edge_map().contains_key(k2)
                        implies self.edge_map()[k2] == old(self).edge_map().remove(k)[k2] by {
                        let a = choose|a: int| 0 <= a < s1.len() && edge_key(s1[a]) == k2;
                        let a0: int = if a < ii {
                            a
                        } else {
                            a + 1
                        };
                        assert(s1[a] == s0[a0]);
                        self.lemma_at(a);
                        old(self).lemma_at(a0);
                    }
                    assert(self.edge_map() =~= old(self).edge_map().remove(k));
                }
                return;
            }
            i = i + 1;
        }
        proof {
            let a0 = choose|a0: int|
                0 <= a0 < old(self).entries@.len() && edge_key(old(self).entries@[a0]) == k;
            assert(false);
        }
    }
}

} // verus!
