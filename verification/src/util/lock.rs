//! A read-only lock.

use vstd::prelude::*;

verus! {

/// A read-only lock: a value that can be read through a shared reference but never written
/// through one. Nothing here writes to it or panics while reading it, so it is never
/// poisoned, and a read always succeeds.
#[derive(Debug)]
pub struct RoLock<T> {
    inner: T,
}

impl<T> RoLock<T> {
    /// The value held.
    pub closed spec fn value(&self) -> T {
        self.inner
    }

    /// A lock holding `value`.
    pub fn new(value: T) -> (r: RoLock<T>)
        ensures
            r.value() == value,
    {
        RoLock { inner: value }
    }

    /// Reads the value held.
    pub fn read(&self) -> (r: &T)
        ensures
            *r == self.value(),
    {
        &self.inner
    }
}

} // verus!
