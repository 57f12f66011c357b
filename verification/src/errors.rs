use vstd::prelude::*;

verus! {

/// Failure kinds surfaced by ledger operations.
#[derive(Clone, Copy, Debug, PartialEq, Eq, Structural)]
pub enum Error {
    /// A value expected to be present was missing. No ledger operation
    /// reports this kind; it is part of the error surface for callers.
    NoneValue,
    /// A category counter would leave its representable range: an increment
    /// at the maximum, or a decrement at zero. The latter can only mean the
    /// counter and the edge set fell out of sync, which no well-formed
    /// ledger allows.
    StorageOverflow,
}

} // verus!
