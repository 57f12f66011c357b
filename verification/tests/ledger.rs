use trust_ledger::Error;
use trust_ledger::Event;
use trust_ledger::Pallet;

#[test]
fn issue_trust() {
    let mut t = Pallet::new();
    assert!(t.issue_trust(1, 1).is_ok());
    assert_eq!(t.get_current_trust_count(), Some(1));
}

#[test]
fn issue_trust_once() {
    let mut t = Pallet::new();
    assert!(t.issue_trust(1, 1).is_ok());
    assert_eq!(t.get_current_trust_count(), Some(1));

    assert!(t.issue_trust(1, 1).is_ok());
    assert_eq!(t.get_current_trust_count(), Some(1));
}

#[test]
fn remove_trust() {
    let mut t = Pallet::new();
    assert!(t.issue_trust(1, 1).is_ok());
    assert_eq!(t.get_current_trust_count(), Some(1));

    assert!(t.remove_trust(1, 1).is_ok());
    assert_eq!(t.get_current_trust_count(), Some(0));
}

#[test]
fn remove_trust_no_failure() {
    let mut t = Pallet::new();
    assert!(t.issue_trust(1, 1).is_ok());
    assert_eq!(t.get_current_trust_count(), Some(1));

    assert!(t.remove_trust(1, 1).is_ok());
    assert_eq!(t.get_current_trust_count(), Some(0));

    assert!(t.remove_trust(1, 1).is_ok());
}

#[test]
fn revoke_trust() {
    let mut t = Pallet::new();
    assert!(t.revoke_trust(1, 1).is_ok());
    assert_eq!(t.get_current_non_trust_count(), Some(1));
}

#[test]
fn revoke_trust_once() {
    let mut t = Pallet::new();
    assert!(t.revoke_trust(1, 1).is_ok());
    assert_eq!(t.get_current_non_trust_count(), Some(1));

    assert!(t.revoke_trust(1, 1).is_ok());
    assert_eq!(t.get_current_non_trust_count(), Some(1));
}

#[test]
fn remove_revoked_trust() {
    let mut t = Pallet::new();
    assert!(t.revoke_trust(1, 1).is_ok());
    assert_eq!(t.get_current_non_trust_count(), Some(1));

    assert!(t.remove_revoked_trust(1, 1).is_ok());
    assert_eq!(t.get_current_non_trust_count(), Some(0));
}

#[test]
fn remove_revoked_trust_no_failure() {
    let mut t = Pallet::new();
    assert!(t.revoke_trust(1, 1).is_ok());
    assert_eq!(t.get_current_non_trust_count(), Some(1));

    assert!(t.remove_revoked_trust(1, 1).is_ok());
    assert_eq!(t.get_current_non_trust_count(), Some(0));

    assert!(t.remove_revoked_trust(1, 1).is_ok());
}

#[test]
fn issue_marks_edge_present() {
    let mut t = Pallet::new();
    assert!(t.issue_trust(1, 1).is_ok());
    assert_eq!(t.get_current_trust_count(), Some(1));
    assert!(t.get_trust_issuance(1, 1).is_some());
}

#[test]
fn round_trip_leaves_no_edge() {
    let mut t = Pallet::new();
    assert!(t.issue_trust(1, 1).is_ok());
    assert!(t.remove_trust(1, 1).is_ok());
    assert_eq!(t.get_current_trust_count(), Some(0));
    assert!(t.get_trust_issuance(1, 1).is_none());
}

#[test]
fn revoke_leaves_issued_untouched() {
    let mut t = Pallet::new();
    assert!(t.revoke_trust(1, 1).is_ok());
    assert_eq!(t.get_current_non_trust_count(), Some(1));
    assert_eq!(t.get_current_trust_count(), Some(0));
}

#[test]
fn categories_are_independent() {
    let mut t = Pallet::new();
    assert!(t.issue_trust(1, 2).is_ok());
    assert!(t.revoke_trust(1, 2).is_ok());
    assert!(t.request_trust(1, 2).is_ok());
    assert_eq!(t.get_current_trust_count(), Some(1));
    assert_eq!(t.get_current_non_trust_count(), Some(1));
    assert_eq!(t.get_current_trust_requests(), Some(1));

    assert!(t.remove_trust(1, 2).is_ok());
    assert_eq!(t.get_current_trust_count(), Some(0));
    assert_eq!(t.get_current_non_trust_count(), Some(1));
    assert_eq!(t.get_current_trust_requests(), Some(1));
    assert!(t.get_non_trust_issuance(1, 2).is_some());
    assert!(t.get_trust_request(1, 2).is_some());
}

#[test]
fn request_and_cancel() {
    let mut t = Pallet::new();
    assert_eq!(t.request_trust(1, 2), Ok(Some(Event::TrustRequest(1, 2))));
    assert_eq!(t.get_current_trust_requests(), Some(1));
    assert_eq!(t.request_trust(1, 2), Ok(None));
    assert_eq!(t.get_current_trust_requests(), Some(1));

    assert_eq!(
        t.cancel_trust_request(1, 2),
        Ok(Some(Event::TrustRequestRemoved(2, 1)))
    );
    assert_eq!(t.get_current_trust_requests(), Some(0));
    assert_eq!(t.cancel_trust_request(1, 2), Ok(None));
    assert_eq!(t.get_current_trust_requests(), Some(0));
}

#[test]
fn notification_argument_order() {
    let mut t = Pallet::new();
    assert_eq!(t.issue_trust(1, 2), Ok(Some(Event::TrustIssued(1, 2))));
    assert_eq!(t.revoke_trust(1, 2), Ok(Some(Event::TrustRevoked(2, 1))));
    assert_eq!(t.request_trust(1, 2), Ok(Some(Event::TrustRequest(1, 2))));
    assert_eq!(
        t.remove_trust(1, 2),
        Ok(Some(Event::TrustIssuanceRemoved(2, 1)))
    );
    assert_eq!(
        t.remove_revoked_trust(1, 2),
        Ok(Some(Event::TrustRevocationRemoved(2, 1)))
    );
    assert_eq!(
        t.cancel_trust_request(1, 2),
        Ok(Some(Event::TrustRequestRemoved(2, 1)))
    );
}

#[test]
fn no_op_emits_no_notification() {
    let mut t = Pallet::new();
    assert_eq!(t.issue_trust(1, 2), Ok(Some(Event::TrustIssued(1, 2))));
    assert_eq!(t.issue_trust(1, 2), Ok(None));
    assert_eq!(t.remove_trust(3, 4), Ok(None));
    assert_eq!(t.remove_revoked_trust(3, 4), Ok(None));
    assert_eq!(t.cancel_trust_request(3, 4), Ok(None));
}

#[test]
fn insertion_order_indices() {
    let mut t = Pallet::new();
    assert!(t.issue_trust(1, 2).is_ok());
    assert!(t.issue_trust(1, 3).is_ok());
    assert_eq!(t.get_trust_issuance(1, 2), Some(0));
    assert_eq!(t.get_trust_issuance(1, 3), Some(1));

    // after a removal the next issuance reuses the counter's new value
    assert!(t.remove_trust(1, 2).is_ok());
    assert!(t.issue_trust(1, 4).is_ok());
    assert_eq!(t.get_trust_issuance(1, 4), Some(1));
    assert_eq!(t.get_current_trust_count(), Some(2));
}

#[test]
fn self_edges_are_permitted() {
    let mut t = Pallet::new();
    assert!(t.issue_trust(7, 7).is_ok());
    assert_eq!(t.get_trust_issuance(7, 7), Some(0));
    assert_eq!(t.get_current_trust_count(), Some(1));
}

#[test]
fn consistency_holds_across_sequences() {
    let mut t = Pallet::new();
    assert!(t.check_consistency());
    let pairs: [(u64, u64); 5] = [(1, 2), (2, 1), (1, 3), (9, 9), (3, 1)];
    for (s, d) in pairs {
        assert!(t.issue_trust(s, d).is_ok());
        assert!(t.check_consistency());
        assert!(t.request_trust(d, s).is_ok());
        assert!(t.check_consistency());
    }
    assert_eq!(t.get_current_trust_count(), Some(5));
    assert_eq!(t.get_current_trust_requests(), Some(5));
    for (s, d) in pairs {
        assert!(t.remove_trust(s, d).is_ok());
        assert!(t.check_consistency());
    }
    assert_eq!(t.get_current_trust_count(), Some(0));
    assert_eq!(t.get_current_trust_requests(), Some(5));
    assert!(t.check_consistency());
}

#[test]
fn counter_underflow_is_an_error() {
    let mut c = trust_ledger::Counter::new();
    assert_eq!(c.decrement(), Err(Error::StorageOverflow));
    assert_eq!(c.value(), 0);
}

#[test]
fn counter_overflow_is_an_error() {
    let mut c = trust_ledger::Counter::with_value(u32::MAX);
    assert_eq!(c.increment(), Err(Error::StorageOverflow));
    assert_eq!(c.value(), u32::MAX);
}

#[test]
fn counter_increment_and_decrement() {
    let mut c = trust_ledger::Counter::new();
    assert_eq!(c.increment(), Ok(()));
    assert_eq!(c.increment(), Ok(()));
    assert_eq!(c.value(), 2);
    assert_eq!(c.decrement(), Ok(()));
    assert_eq!(c.value(), 1);
}

#[test]
fn default_current_is_zero() {
    assert_eq!(trust_ledger::DefaultCurrent(), 0);
}
