//! A counter shared between tasks, with a guard that undoes an increment when
//! it goes out of scope.

use vstd::prelude::*;
use std::sync::atomic::{AtomicI32, Ordering};

verus! {

/// A counter that many tasks can increment at once (it wraps around on overflow).
pub struct Counter {
    count: AtomicI32,
}

impl Counter {
    pub fn new() -> (c: Self) {
        Counter { count: AtomicI32::new(0) }
    }

    /// The current value; other tasks may change it at any moment.
    pub fn get(&self) -> i32 {
        self.count.load(Ordering::SeqCst)
    }

    pub fn inc(&self) {
        self.count.fetch_add(1, Ordering::SeqCst);
    }

    /// Increments the counter and returns a guard that decrements it again when
    /// it is dropped.
    pub fn boost(&self) -> (guard: DecrementGuard<'_>)
        ensures
            guard.decrements(self),
    {
        let guard = DecrementGuard { count: &self.count };
        self.count.fetch_add(1, Ordering::SeqCst);
        guard
    }
}

/// Decrements the counter it was made from when dropped.
pub struct DecrementGuard<'a> {
    count: &'a AtomicI32,
}

impl<'a> DecrementGuard<'a> {
    /// Whether this guard decrements the given counter.
    pub closed spec fn decrements(&self, counter: &Counter) -> bool {
        self.count == &counter.count
    }
}

impl<'a> Drop for DecrementGuard<'a> {
    fn drop(&mut self)
        opens_invariants none
        no_unwind
    {
        decrement(self.count);
    }
}

/// Calls `AtomicI32::fetch_sub(1, SeqCst)`, which wraps on overflow and, as std
/// documents, does not panic; the contract claims only that it does not unwind.
#[verifier::external_body]
fn decrement(count: &AtomicI32)
    opens_invariants none
    no_unwind
{
    count.fetch_sub(1, Ordering::SeqCst);
}

} // verus!
