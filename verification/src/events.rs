use vstd::prelude::*;

verus! {

/// Notification handed to the caller whenever an operation actually changes
/// state; no notification is produced for a no-op.
///
/// Argument order convention: `TrustIssued` and `TrustRequest` list
/// `(source, target)`, while the revocation and every removal/cancellation
/// variant list `(target, source)`. The asymmetry is a convention that
/// existing observers depend on, and it is preserved on purpose.
#[derive(Clone, Copy, Debug, PartialEq, Eq, Structural)]
pub enum Event {
    TrustIssued(u64, u64),
    TrustRevoked(u64, u64),
    TrustRequest(u64, u64),
    TrustRequestRemoved(u64, u64),
    TrustIssuanceRemoved(u64, u64),
    TrustRevocationRemoved(u64, u64),
}

} // verus!
