use vstd::prelude::*;

use crate::counter::Counter;
use crate::edge_store::EdgeStore;
use crate::errors::Error;
use crate::events::Event;
use crate::model::CategoryModel;
use crate::model::add_step;
use crate::model::cat_empty;
use crate::model::cat_has;
use crate::model::cat_wf;
use crate::model::remove_step;

verus! {

/// The trust ledger: three independent edge categories — issued, revoked,
/// requested — each a direct-keyed edge store paired with a counter of the
/// edges currently present. The ledger owns the whole mutation path; every
/// operation is an atomic check-then-act over one category and is
/// idempotent.
pub struct Pallet {
    issued: EdgeStore,
    revoked: EdgeStore,
    requested: EdgeStore,
    current_issued: Counter,
    current_revoked: Counter,
    current_requests: Counter,
}

impl Pallet {
    /// The abstract state of the issued category.
    pub closed spec fn issued_model(self) -> CategoryModel {
        CategoryModel { edges: self.issued.edge_map(), count: self.current_issued.spec_value() }
    }

    /// The abstract state of the revoked category.
    pub closed spec fn revoked_model(self) -> CategoryModel {
        CategoryModel { edges: self.revoked.edge_map(), count: self.current_revoked.spec_value() }
    }

    /// The abstract state of the requested category.
    pub closed spec fn requested_model(self) -> CategoryModel {
        CategoryModel {
            edges: self.requested.edge_map(),
            count: self.current_requests.spec_value(),
        }
    }

    /// Well-formedness: no category holds a duplicate pair, and each
    /// counter equals the number of edges its category holds. Every
    /// constructor establishes this and every operation preserves it.
    pub closed spec fn wf(self) -> bool {
        &&& self.issued.inv()
        &&& self.revoked.inv()
        &&& self.requested.inv()
        &&& self.current_issued.spec_value() == self.issued.spec_len()
        &&& self.current_revoked.spec_value() == self.revoked.spec_len()
        &&& self.current_requests.spec_value() == self.requested.spec_len()
    }

    /// Counter invariant: in a well-formed ledger each category's counter
    /// equals the number of edges present in that category, for every
    /// category at once.
    pub proof fn lemma_counter_invariant(self)
        requires
            self.wf(),
        ensures
            cat_wf(self.issued_model()),
            cat_wf(self.revoked_model()),
            cat_wf(self.requested_model()),
    {
        self.issued.lemma_card();
        self.revoked.lemma_card();
        self.requested.lemma_card();
    }

    /// Offline consistency check: rescan every category for duplicate
    /// pairs and recount its edges against the counter. True iff the
    /// ledger is well formed. The verified operations preserve
    /// well-formedness by proof, so this recomputation belongs in an audit
    /// path, never on the hot path.
    pub fn check_consistency(&self) -> (r: bool)
        ensures
            r == self.wf(),
    {
        let issued_ok = self.issued.check_no_duplicates() && self.current_issued.value() as usize
            == self.issued.len();
        let revoked_ok = self.revoked.check_no_duplicates() && self.current_revoked.value() as usize
            == self.revoked.len();
        let requested_ok = self.requested.check_no_duplicates()
            && self.current_requests.value() as usize == self.requested.len();
        issued_ok && revoked_ok && requested_ok
    }

    /// An empty ledger: no edges, all counters zero.
    pub fn new() -> (r: Pallet)
        ensures
            r.wf(),
            r.issued_model() == cat_empty(),
            r.revoked_model() == cat_empty(),
            r.requested_model() == cat_empty(),
    {
        Pallet {
            issued: EdgeStore::new(),
            revoked: EdgeStore::new(),
            requested: EdgeStore::new(),
            current_issued: Counter::new(),
            current_revoked: Counter::new(),
            current_requests: Counter::new(),
        }
    }

    /// The shared add path: if the edge is absent, increment the counter
    /// and store the edge under the counter's prior value. Returns whether
    /// the state changed; on counter overflow nothing changes at all.
    fn add_edge(store: &mut EdgeStore, counter: &mut Counter, source: u64, target: u64) -> (r:
        Result<bool, Error>)
        requires
            old(store).inv(),
            old(counter).spec_value() == old(store).spec_len(),
        ensures
            final(store).inv(),
            final(counter).spec_value() == final(store).spec_len(),
            ({
                let m0 = CategoryModel {
                    edges: old(store).edge_map(),
                    count: old(counter).spec_value(),
                };
                let o = add_step(m0, source, target);
                &&& final(store).edge_map() == o.post.edges
                &&& final(counter).spec_value() == o.post.count
                &&& (o.err ==> r is Err && r->Err_0 == Error::StorageOverflow && *final(store)
                    == *old(store) && *final(counter) == *old(counter))
                &&& (!o.err ==> r is Ok && r->Ok_0 == o.emitted)
                &&& (!o.emitted && !o.err ==> *final(store) == *old(store) && *final(counter)
                    == *old(counter))
            }),
    {
        if !store.contains(source, target) {
            let total = counter.value();
            match counter.increment() {
                Err(e) => Err(e),
                Ok(_) => {
                    store.insert(source, target, total);
                    Ok(true)
                },
            }
        } else {
            Ok(false)
        }
    }

    /// The shared remove path: if the edge is present, delete it and
    /// decrement the counter. Returns whether the state changed. Under the
    /// well-formedness invariant a present edge means a positive counter,
    /// so the decrement is proven never to underflow.
    fn remove_edge(store: &mut EdgeStore, counter: &mut Counter, source: u64, target: u64) -> (r:
        bool)
        requires
            old(store).inv(),
            old(counter).spec_value() == old(store).spec_len(),
        ensures
            final(store).inv(),
            final(counter).spec_value() == final(store).spec_len(),
            ({
                let m0 = CategoryModel {
                    edges: old(store).edge_map(),
                    count: old(counter).spec_value(),
                };
                let o = remove_step(m0, source, target);
                &&& final(store).edge_map() == o.post.edges
                &&& final(counter).spec_value() == o.post.count
                &&& r == o.emitted
                &&& (!o.emitted ==> *final(store) == *old(store) && *final(counter) == *old(
                    counter,
                ))
            }),
    {
        if store.contains(source, target) {
            proof {
                old(store).lemma_contains_nonempty((source, target));
            }
            store.remove(source, target);
            match counter.decrement() {
                Err(_) => {
                    proof {
                        assert(false);
                    }
                },
                Ok(_) => {},
            }
            true
        } else {
            false
        }
    }

    /// Fully give `who`'s trust to account `address`.
    ///
    /// A silent no-op when trust is already issued for the pair; otherwise
    /// the edge is stored and the issued counter incremented. The returned
    /// notification is present exactly when the state changed; the only
    /// failure is counter overflow, which leaves the ledger untouched.
    pub fn issue_trust(&mut self, who: u64, address: u64) -> (r: Result<Option<Event>, Error>)
        requires
            old(self).wf(),
        ensures
            final(self).wf(),
            final(self).issued_model() == add_step(old(self).issued_model(), who, address).post,
            final(self).revoked_model() == old(self).revoked_model(),
            final(self).requested_model() == old(self).requested_model(),
            cat_has(old(self).issued_model(), who, address) ==> *final(self) == *old(self),
            r is Ok <==> !add_step(old(self).issued_model(), who, address).err,
            r is Err ==> r->Err_0 == Error::StorageOverflow && *final(self) == *old(self),
            r is Ok ==> r->Ok_0 == (if add_step(old(self).issued_model(), who, address).emitted {
                Some(Event::TrustIssued(who, address))
            } else {
                None
            }),
    {
        match Self::add_edge(&mut self.issued, &mut self.current_issued, who, address) {
            Err(e) => Err(e),
            Ok(true) => Ok(Some(Event::TrustIssued(who, address))),
            Ok(false) => Ok(None),
        }
    }

    /// Remove issued trust from account `address`, returning the pair's
    /// trust status to unknown.
    ///
    /// A silent no-op when no issued edge exists; the operation never
    /// fails. The notification, present exactly when the state changed,
    /// lists the target before the source.
    pub fn remove_trust(&mut self, who: u64, address: u64) -> (r: Result<Option<Event>, Error>)
        requires
            old(self).wf(),
        ensures
            final(self).wf(),
            final(self).issued_model() == remove_step(old(self).issued_model(), who, address).post,
            final(self).revoked_model() == old(self).revoked_model(),
            final(self).requested_model() == old(self).requested_model(),
            r is Ok,
            !cat_has(old(self).issued_model(), who, address) ==> *final(self) == *old(self),
            r->Ok_0 == (if remove_step(old(self).issued_model(), who, address).emitted {
                Some(Event::TrustIssuanceRemoved(address, who))
            } else {
                None
            }),
    {
        if Self::remove_edge(&mut self.issued, &mut self.current_issued, who, address) {
            Ok(Some(Event::TrustIssuanceRemoved(address, who)))
        } else {
            Ok(None)
        }
    }

    /// Ask for `address`'s trust on behalf of `who`.
    ///
    /// A silent no-op when the request already stands; otherwise the edge
    /// is stored and the request counter incremented. The only failure is
    /// counter overflow, which leaves the ledger untouched.
    pub fn request_trust(&mut self, who: u64, address: u64) -> (r: Result<Option<Event>, Error>)
        requires
            old(self).wf(),
        ensures
            final(self).wf(),
            final(self).requested_model() == add_step(old(self).requested_model(), who, address).post,
            final(self).issued_model() == old(self).issued_model(),
            final(self).revoked_model() == old(self).revoked_model(),
            cat_has(old(self).requested_model(), who, address) ==> *final(self) == *old(self),
            r is Ok <==> !add_step(old(self).requested_model(), who, address).err,
            r is Err ==> r->Err_0 == Error::StorageOverflow && *final(self) == *old(self),
            r is Ok ==> r->Ok_0 == (if add_step(old(self).requested_model(), who, address).emitted {
                Some(Event::TrustRequest(who, address))
            } else {
                None
            }),
    {
        match Self::add_edge(&mut self.requested, &mut self.current_requests, who, address) {
            Err(e) => Err(e),
            Ok(true) => Ok(Some(Event::TrustRequest(who, address))),
            Ok(false) => Ok(None),
        }
    }

    /// Withdraw a standing trust request.
    ///
    /// A silent no-op when no request stands; the operation never fails.
    /// The notification lists the target before the source.
    pub fn cancel_trust_request(&mut self, who: u64, address: u64) -> (r: Result<
        Option<Event>,
        Error,
    >)
        requires
            old(self).wf(),
        ensures
            final(self).wf(),
            final(self).requested_model() == remove_step(
                old(self).requested_model(),
                who,
                address,
            ).post,
            final(self).issued_model() == old(self).issued_model(),
            final(self).revoked_model() == old(self).revoked_model(),
            r is Ok,
            !cat_has(old(self).requested_model(), who, address) ==> *final(self) == *old(self),
            r->Ok_0 == (if remove_step(old(self).requested_model(), who, address).emitted {
                Some(Event::TrustRequestRemoved(address, who))
            } else {
                None
            }),
    {
        if Self::remove_edge(&mut self.requested, &mut self.current_requests, who, address) {
            Ok(Some(Event::TrustRequestRemoved(address, who)))
        } else {
            Ok(None)
        }
    }

    /// Explicitly mark account `address` as untrusted by `who`.
    ///
    /// A silent no-op when the revocation already stands; otherwise the
    /// edge is stored and the revoked counter incremented. The only
    /// failure is counter overflow, which leaves the ledger untouched.
    /// The notification lists the target before the source.
    pub fn revoke_trust(&mut self, who: u64, address: u64) -> (r: Result<Option<Event>, Error>)
        requires
            old(self).wf(),
        ensures
            final(self).wf(),
            final(self).revoked_model() == add_step(old(self).revoked_model(), who, address).post,
            final(self).issued_model() == old(self).issued_model(),
            final(self).requested_model() == old(self).requested_model(),
            cat_has(old(self).revoked_model(), who, address) ==> *final(self) == *old(self),
            r is Ok <==> !add_step(old(self).revoked_model(), who, address).err,
            r is Err ==> r->Err_0 == Error::StorageOverflow && *final(self) == *old(self),
            r is Ok ==> r->Ok_0 == (if add_step(old(self).revoked_model(), who, address).emitted {
                Some(Event::TrustRevoked(address, who))
            } else {
                None
            }),
    {
        match Self::add_edge(&mut self.revoked, &mut self.current_revoked, who, address) {
            Err(e) => Err(e),
            Ok(true) => Ok(Some(Event::TrustRevoked(address, who))),
            Ok(false) => Ok(None),
        }
    }

    /// Return a revoked `address` to an unknown trust state.
    ///
    /// A silent no-op when no revocation stands; the operation never
    /// fails. The notification lists the target before the source.
    pub fn remove_revoked_trust(&mut self, who: u64, address: u64) -> (r: Result<
        Option<Event>,
        Error,
    >)
        requires
            old(self).wf(),
        ensures
            final(self).wf(),
            final(self).revoked_model() == remove_step(old(self).revoked_model(), who, address).post,
            final(self).issued_model() == old(self).issued_model(),
            final(self).requested_model() == old(self).requested_model(),
            r is Ok,
            !cat_has(old(self).revoked_model(), who, address) ==> *final(self) == *old(self),
            r->Ok_0 == (if remove_step(old(self).revoked_model(), who, address).emitted {
                Some(Event::TrustRevocationRemoved(address, who))
            } else {
                None
            }),
    {
        if Self::remove_edge(&mut self.revoked, &mut self.current_revoked, who, address) {
            Ok(Some(Event::TrustRevocationRemoved(address, who)))
        } else {
            Ok(None)
        }
    }

    /// The total number of trust edges currently issued.
    pub fn get_current_trust_count(&self) -> (r: Option<u32>)
        ensures
            r == Some(self.issued_model().count),
    {
        Some(self.current_issued.value())
    }

    /// The total number of revocation edges currently active.
    pub fn get_current_non_trust_count(&self) -> (r: Option<u32>)
        ensures
            r == Some(self.revoked_model().count),
    {
        Some(self.current_revoked.value())
    }

    /// The total number of trust requests currently standing.
    pub fn get_current_trust_requests(&self) -> (r: Option<u32>)
        ensures
            r == Some(self.requested_model().count),
    {
        Some(self.current_requests.value())
    }

    /// The insertion-order index under which `who` issued trust to
    /// `address`, if such an edge is present.
    pub fn get_trust_issuance(&self, who: u64, address: u64) -> (r: Option<u32>)
        requires
            self.wf(),
        ensures
            r is Some <==> cat_has(self.issued_model(), who, address),
            r is Some ==> r->0 == self.issued_model().edges[(who, address)],
    {
        self.issued.get(who, address)
    }

    /// The insertion-order index under which `who` revoked trust from
    /// `address`, if such an edge is present.
    pub fn get_non_trust_issuance(&self, who: u64, address: u64) -> (r: Option<u32>)
        requires
            self.wf(),
        ensures
            r is Some <==> cat_has(self.revoked_model(), who, address),
            r is Some ==> r->0 == self.revoked_model().edges[(who, address)],
    {
        self.revoked.get(who, address)
    }

    /// The insertion-order index under which `who` requested trust from
    /// `address`, if such an edge is present.
    pub fn get_trust_request(&self, who: u64, address: u64) -> (r: Option<u32>)
        requires
            self.wf(),
        ensures
            r is Some <==> cat_has(self.requested_model(), who, address),
            r is Some ==> r->0 == self.requested_model().edges[(who, address)],
    {
        self.requested.get(who, address)
    }
}

} // verus!
