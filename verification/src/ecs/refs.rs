//! A component that can be referenced but not written to.

use std::sync::Arc;
use vstd::prelude::*;
use vstd::rwlock::{ReadHandle, RwLock, RwLockPredicate};
use crate::ecs::{Reference, share};

verus! {

/// The invariant of a `Ref`'s cell: it holds the value it was made with,
/// or `Expired`.
pub struct OriginalOrExpired<T> {
    pub original: T,
}

impl<T> RwLockPredicate<Reference<T>> for OriginalOrExpired<T> {
    open spec fn inv(self, v: Reference<T>) -> bool {
        v == Reference::Present(self.original) || v is Expired
    }
}

/// A shared, read-only component. Clones share the value; `expire` removes
/// it for every holder. Nothing else ever changes it.
pub struct Ref<T> {
    value: Arc<RwLock<Reference<T>, OriginalOrExpired<T>>>,
}

impl<T> Ref<T> {
    /// The value the `Ref` was made with.
    pub closed spec fn original(self) -> T {
        self.value.pred().original
    }

    /// The lock the value is kept in.
    pub closed spec fn cell(self) -> RwLock<Reference<T>, OriginalOrExpired<T>> {
        *self.value
    }

    /// A new `Ref` holding `value`.
    pub fn new(value: T) -> (r: Ref<T>)
        ensures
            r.original() == value,
    {
        let ghost pred = OriginalOrExpired { original: value };
        Ref { value: Arc::new(RwLock::new(Reference::Present(value), Ghost(pred))) }
    }

    /// Another handle to the same value.
    pub fn clone(&self) -> (r: Ref<T>)
        ensures
            r.cell() == self.cell(),
            r.original() == self.original(),
    {
        Ref { value: share(&self.value) }
    }

    /// Waits for and takes a read lock; what it shows is the original value
    /// or `Expired`.
    pub fn get(&self) -> (r: ReadHandle<'_, Reference<T>, OriginalOrExpired<T>>)
        ensures
            r.rwlock() == self.cell(),
            r.view() == Reference::Present(self.original()) || r.view() is Expired,
    {
        self.value.acquire_read()
    }

    /// Removes the value: writes `Expired` into the cell, which every clone
    /// shares. What a later read shows is not part of the contract: of a
    /// shared lock's contents only its invariant (the original value or
    /// `Expired`) is known.
    pub fn expire(&mut self)
        ensures
            final(self).cell() == old(self).cell(),
            final(self).original() == old(self).original(),
    {
        let (_, handle) = self.value.acquire_write();
        handle.release_write(Reference::Expired);
    }
}

} // verus!
