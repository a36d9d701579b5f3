//! Singleton resources shared by tasks.

use std::sync::Arc;
use vstd::prelude::*;
use vstd::rwlock::{ReadHandle, RwLock, WriteHandle};
use crate::ecs::{MadeWith, share};

verus! {

/// A resource: one value shared by every task that names it.
pub struct Res<T: Default> {
    pub value: Arc<RwLock<T, MadeWith<T>>>,
}

impl<T: Default> Res<T> {
    /// The value the resource was made with.
    pub open spec fn made_with(self) -> T {
        self.value.pred().first
    }

    /// A resource holding `value`.
    pub fn new(value: T) -> (r: Res<T>)
        ensures
            r.made_with() == value,
    {
        let ghost pred = MadeWith { first: value };
        Res { value: Arc::new(RwLock::new(value, Ghost(pred))) }
    }

    /// Waits for and takes a read lock on the value.
    pub fn read(&self) -> (r: ReadHandle<'_, T, MadeWith<T>>)
        ensures
            r.rwlock() == *self.value,
    {
        self.value.acquire_read()
    }

    /// As `read`; the lock cannot be poisoned, so `massage` is never shown.
    pub fn e_read(&self, massage: &str) -> (r: ReadHandle<'_, T, MadeWith<T>>)
        ensures
            r.rwlock() == *self.value,
    {
        self.value.acquire_read()
    }

    /// As `read`.
    pub fn f_read(&self) -> (r: ReadHandle<'_, T, MadeWith<T>>)
        ensures
            r.rwlock() == *self.value,
    {
        self.value.acquire_read()
    }

    /// Waits for and takes the write lock; the new value goes back through
    /// the handle.
    pub fn write(&self) -> (r: (T, WriteHandle<'_, T, MadeWith<T>>))
        ensures
            r.1.rwlock() == *self.value,
    {
        self.value.acquire_write()
    }

    /// As `write`; the lock cannot be poisoned, so `massage` is never shown.
    pub fn e_write(&self, massage: &str) -> (r: (T, WriteHandle<'_, T, MadeWith<T>>))
        ensures
            r.1.rwlock() == *self.value,
    {
        self.value.acquire_write()
    }

    /// As `write`.
    pub fn f_write(&self) -> (r: (T, WriteHandle<'_, T, MadeWith<T>>))
        ensures
            r.1.rwlock() == *self.value,
    {
        self.value.acquire_write()
    }

    /// Another handle to the same resource.
    pub fn clone(&self) -> (r: Res<T>)
        ensures
            r.value == self.value,
    {
        Res { value: share(&self.value) }
    }
}

} // verus!
