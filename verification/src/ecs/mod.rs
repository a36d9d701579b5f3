//! The engine's component and resource cells, archetype views and the
//! member hierarchy.

use std::sync::Arc;
use vstd::prelude::*;
use vstd::rwlock::RwLockPredicate;

pub mod arch;
pub mod hierarchy;
pub mod locked;
pub mod locked_ref;
pub mod outputs;
pub mod refs;
pub mod res;

verus! {

/// A value that may have been removed. Values held by `LockedRef`, `Ref`
/// and `Member` become `Expired` when they are removed; until then they are
/// `Present`.
#[derive(Debug)]
pub enum Reference<T> {
    Present(T),
    Expired,
}

/// The invariant of a cell whose value any thread may set to anything. It
/// records the value the cell was made with; what the cell holds later is
/// whatever was last written to it.
pub struct MadeWith<V> {
    pub first: V,
}

impl<V> RwLockPredicate<V> for MadeWith<V> {
    open spec fn inv(self, v: V) -> bool {
        true
    }
}

/// Another handle to the value an `Arc` points to: `Arc::clone` hands out a
/// pointer to the same allocation, so the value seen through it is the same.
#[verifier::external_body]
pub(crate) fn share<T>(a: &Arc<T>) -> (r: Arc<T>)
    ensures
        r == *a,
{
    Arc::clone(a)
}

} // verus!
