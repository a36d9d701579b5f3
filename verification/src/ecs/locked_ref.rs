//! A component that tasks can write to and that can be referenced.

use std::sync::Arc;
use vstd::prelude::*;
use vstd::rwlock::{ReadHandle, RwLock, WriteHandle};
use crate::ecs::{MadeWith, Reference, share};

verus! {

/// A shared, lockable component. Clones share the value; removing it
/// (`expire`) makes it `Expired` for every holder.
pub struct LockedRef<T> {
    pub value: Arc<RwLock<Reference<T>, MadeWith<Reference<T>>>>,
}

impl<T> LockedRef<T> {
    /// The value the component was made with.
    pub open spec fn made_with(self) -> Reference<T> {
        self.value.pred().first
    }

    /// A new component holding `value`.
    pub fn new(value: T) -> (r: LockedRef<T>)
        ensures
            r.made_with() == Reference::Present(value),
    {
        let ghost pred = MadeWith { first: Reference::Present(value) };
        LockedRef { value: Arc::new(RwLock::new(Reference::Present(value), Ghost(pred))) }
    }

    /// Another handle to the same value.
    pub fn clone(&self) -> (r: LockedRef<T>)
        ensures
            r.value == self.value,
    {
        LockedRef { value: share(&self.value) }
    }

    /// Waits for and takes a read lock on the value.
    pub fn read(&self) -> (r: ReadHandle<'_, Reference<T>, MadeWith<Reference<T>>>)
        ensures
            r.rwlock() == *self.value,
    {
        self.value.acquire_read()
    }

    /// As `read`; the lock cannot be poisoned, so `massage` is never shown.
    pub fn e_read(&self, massage: &str) -> (r: ReadHandle<'_, Reference<T>, MadeWith<Reference<T>>>)
        ensures
            r.rwlock() == *self.value,
    {
        self.value.acquire_read()
    }

    /// As `read`.
    pub fn f_read(&self) -> (r: ReadHandle<'_, Reference<T>, MadeWith<Reference<T>>>)
        ensures
            r.rwlock() == *self.value,
    {
        self.value.acquire_read()
    }

    /// Waits for and takes the write lock; the new value goes back through
    /// the handle.
    pub fn write(&self) -> (r: (Reference<T>, WriteHandle<'_, Reference<T>, MadeWith<Reference<T>>>))
        ensures
            r.1.rwlock() == *self.value,
    {
        self.value.acquire_write()
    }

    /// As `write`; the lock cannot be poisoned, so `massage` is never shown.
    pub fn e_write(&self, massage: &str) -> (r: (Reference<T>, WriteHandle<'_, Reference<T>, MadeWith<Reference<T>>>))
        ensures
            r.1.rwlock() == *self.value,
    {
        self.value.acquire_write()
    }

    /// As `write`.
    pub fn f_write(&self) -> (r: (Reference<T>, WriteHandle<'_, Reference<T>, MadeWith<Reference<T>>>))
        ensures
            r.1.rwlock() == *self.value,
    {
        self.value.acquire_write()
    }

    /// Removes the value: writes `Expired` into the cell, which every clone
    /// shares. What a later read shows is not part of the contract: of a
    /// shared lock's contents only its invariant is known.
    pub fn expire(&mut self)
        ensures
            final(self).value == old(self).value,
    {
        let (_, handle) = self.value.acquire_write();
        handle.release_write(Reference::Expired);
    }
}

} // verus!
