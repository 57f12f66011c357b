use vstd::prelude::*;

use crate::errors::Error;

verus! {

/// Initial value of every category counter: no live edges, zero total.
#[allow(non_snake_case)]
pub fn DefaultCurrent() -> (r: u32)
    ensures
        r == 0,
{
    0
}

/// One category counter: the number of currently-live edges in a single
/// category. It is only ever incremented or decremented alongside the paired
/// edge-store mutation. Overflow and underflow are surfaced as errors, never
/// wrapped silently: an underflow in particular would mean the counter and
/// the edge set have fallen out of sync.
pub struct Counter {
    value: u32,
}

impl Counter {
    /// The counted value.
    pub closed spec fn spec_value(self) -> u32 {
        self.value
    }

    pub fn new() -> (r: Counter)
        ensures
            r.spec_value() == 0,
    {
        Counter { value: DefaultCurrent() }
    }

    /// A counter holding a given value, for consistency tooling and tests.
    pub fn with_value(value: u32) -> (r: Counter)
        ensures
            r.spec_value() == value,
    {
        Counter { value }
    }

    pub fn value(&self) -> (r: u32)
        ensures
            r == self.spec_value(),
    {
        self.value
    }

    /// Add one to the counter; at the maximum, fail with `StorageOverflow`
    /// and leave the counter unchanged.
    pub fn increment(&mut self) -> (r: Result<(), Error>)
        ensures
            old(self).spec_value() < u32::MAX ==> r is Ok
                && final(self).spec_value() == old(self).spec_value() + 1,
            old(self).spec_value() == u32::MAX ==> r is Err
                && r->Err_0 == Error::StorageOverflow
                && *final(self) == *old(self),
    {
        if self.value < u32::MAX {
            self.value = self.value + 1;
            Ok(())
        } else {
            Err(Error::StorageOverflow)
        }
    }

    /// Subtract one from the counter; at zero, fail with `StorageOverflow`
    /// and leave the counter unchanged.
    pub fn decrement(&mut self) -> (r: Result<(), Error>)
        ensures
            old(self).spec_value() > 0 ==> r is Ok
                && final(self).spec_value() == old(self).spec_value() - 1,
            old(self).spec_value() == 0 ==> r is Err
                && r->Err_0 == Error::StorageOverflow
                && *final(self) == *old(self),
    {
        if self.value > 0 {
            self.value = self.value - 1;
            Ok(())
        } else {
            Err(Error::StorageOverflow)
        }
    }
}

} // verus!
