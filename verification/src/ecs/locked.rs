//! A component that tasks can write to but that cannot be referenced.

use vstd::prelude::*;
use vstd::rwlock::{ReadHandle, RwLock, WriteHandle};
use crate::ecs::MadeWith;

verus! {

/// A component behind a read-write lock. Readers get a `ReadHandle` and
/// give it back with `release_read`; a writer takes the value out with a
/// `WriteHandle` and puts the new value back with `release_write`. The
/// lock is never poisoned.
pub struct Locked<T> {
    pub value: RwLock<T, MadeWith<T>>,
}

impl<T> Locked<T> {
    /// The value the component was made with.
    pub open spec fn made_with(self) -> T {
        self.value.pred().first
    }

    /// A new locked component holding `value`.
    pub fn new(value: T) -> (r: Locked<T>)
        ensures
            r.made_with() == value,
    {
        let ghost pred = MadeWith { first: value };
        Locked { value: RwLock::new(value, Ghost(pred)) }
    }

    /// Waits for and takes a read lock on the value.
    pub fn read(&self) -> (r: ReadHandle<'_, T, MadeWith<T>>)
        ensures
            r.rwlock() == self.value,
    {
        self.value.acquire_read()
    }

    /// Waits for and takes a read lock on the value. The lock cannot be
    /// poisoned, so `massage` is never shown.
    pub fn e_read(&self, massage: &str) -> (r: ReadHandle<'_, T, MadeWith<T>>)
        ensures
            r.rwlock() == self.value,
    {
        self.value.acquire_read()
    }

    /// Waits for and takes a read lock on the value.
    pub fn f_read(&self) -> (r: ReadHandle<'_, T, MadeWith<T>>)
        ensures
            r.rwlock() == self.value,
    {
        self.value.acquire_read()
    }

    /// Waits for and takes the write lock: the value is handed out together
    /// with the handle through which the new value is put back.
    pub fn write(&self) -> (r: (T, WriteHandle<'_, T, MadeWith<T>>))
        ensures
            r.1.rwlock() == self.value,
    {
        self.value.acquire_write()
    }

    /// As `write`; the lock cannot be poisoned, so `massage` is never shown.
    pub fn e_write(&self, massage: &str) -> (r: (T, WriteHandle<'_, T, MadeWith<T>>))
        ensures
            r.1.rwlock() == self.value,
    {
        self.value.acquire_write()
    }

    /// As `write`.
    pub fn f_write(&self) -> (r: (T, WriteHandle<'_, T, MadeWith<T>>))
        ensures
            r.1.rwlock() == self.value,
    {
        self.value.acquire_write()
    }
}

} // verus!
