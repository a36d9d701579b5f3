//! The asset server as a resource of the engine: assets are added with
//! their value, or loaded on another thread, and counted by handle.

use vstd::prelude::*;
use std::collections::HashMap;
use crate::assets::{Asset, AssetValue, reads_as};

verus! {

broadcast use vstd::std_specs::hash::group_hash_axioms;

/// The assets of one type by id, with the number of handles to each, and
/// the value an asset reads as while it loads.
#[derive(Debug)]
pub struct AssetServer<T> {
    pub values: HashMap<u64, AssetValue<T>>,
    pub references: HashMap<u64, usize>,
    pub default: Option<T>,
}

/// Adding and loading the assets of a server.
pub trait AssetTrait<T> {
    /// Registers a handle to the asset `id`, whose value the caller goes on
    /// to load.
    fn load(&mut self, id: u64) -> Asset;

    /// Adds a handle to the asset `id`, with its value.
    fn add(&mut self, id: u64, asset: T) -> Asset;

    /// Sets the value that assets read as while they load.
    fn add_original(&mut self, asset: T);
}

impl<T> AssetServer<T> {
    /// Every asset has a count of handles, and every count an asset.
    pub open spec fn wf(&self) -> bool {
        forall|k: u64| #[trigger] self.values@.contains_key(k) <==> self.references@.contains_key(k)
    }

    /// An empty server with no default.
    pub fn new() -> (r: Self)
        ensures
            r.wf(),
            r.values@ == Map::<u64, AssetValue<T>>::empty(),
            r.references@ == Map::<u64, usize>::empty(),
            r.default is None,
    {
        AssetServer { values: HashMap::new(), references: HashMap::new(), default: None }
    }

    /// Puts the loaded value of the asset `id` in place, if the server
    /// still has the asset.
    pub fn finish_load(&mut self, id: u64, value: T)
        ensures
            final(self).values@ == if old(self).values@.contains_key(id) {
                old(self).values@.insert(id, AssetValue::Ready(value))
            } else {
                old(self).values@
            },
            final(self).references@ == old(self).references@,
            final(self).default == old(self).default,
    {
        if self.values.contains_key(&id) {
            self.values.insert(id, AssetValue::Ready(value));
        }
    }

    /// Counts one more handle to the asset of `a`, as cloning a handle does.
    pub fn retain(&mut self, a: &Asset)
        requires
            old(self).wf(),
            old(self).references@.contains_key(a.id),
        ensures
            final(self).wf(),
            final(self).references@ == old(self).references@.insert(a.id, old(self).references@[a.id].wrapping_add(1)),
            final(self).values@ == old(self).values@,
            final(self).default == old(self).default,
    {
        match self.references.get(&a.id) {
            Some(c) => {
                let n = c.wrapping_add(1);
                self.references.insert(a.id, n);
            },
            None => {},
        }
    }

    /// Counts one handle fewer to the asset of `a`, as dropping a handle
    /// does: where the count already stood at 0 the asset leaves the
    /// server.
    pub fn release(&mut self, a: &Asset)
        requires
            old(self).wf(),
            old(self).references@.contains_key(a.id),
        ensures
            final(self).wf(),
            final(self).default == old(self).default,
            old(self).references@[a.id] == 0 ==> final(self).references@ == old(self).references@.remove(a.id)
                && final(self).values@ == old(self).values@.remove(a.id),
            old(self).references@[a.id] != 0 ==> final(self).references@ == old(self).references@.insert(
                a.id,
                (old(self).references@[a.id] - 1) as usize,
            ) && final(self).values@ == old(self).values@,
    {
        match self.references.get(&a.id) {
            Some(c) => {
                let before = *c;
                if before == 0 {
                    self.references.remove(&a.id);
                    self.values.remove(&a.id);
                } else {
                    self.references.insert(a.id, before - 1);
                }
            },
            None => {},
        }
    }

    /// What the asset of `a` reads as now.
    pub fn value(&self, a: &Asset) -> (r: Option<&T>)
        requires
            self.values@.contains_key(a.id),
        ensures
            match r {
                Some(t) => reads_as(self.values@, self.default, a.id) == Some(*t),
                None => reads_as(self.values@, self.default, a.id) is None,
            },
    {
        match self.values.get(&a.id) {
            Some(AssetValue::Ready(t)) => Some(t),
            _ => self.default.as_ref(),
        }
    }
}

impl<T> AssetTrait<T> for AssetServer<T> {
    /// One more handle to an asset the server has; a new asset with one
    /// handle, still loading, otherwise.
    fn load(&mut self, id: u64) -> (r: Asset)
        ensures
            r.id == id,
            final(self).default == old(self).default,
            old(self).references@.contains_key(id) ==> final(self).references@ == old(self).references@.insert(
                id,
                old(self).references@[id].wrapping_add(1),
            ) && final(self).values@ == old(self).values@,
            !old(self).references@.contains_key(id) ==> final(self).references@ == old(self).references@.insert(id, 1)
                && final(self).values@ == old(self).values@.insert(id, AssetValue::NotReady),
            old(self).wf() ==> final(self).wf(),
    {
        match self.references.get(&id) {
            Some(c) => {
                let n = c.wrapping_add(1);
                self.references.insert(id, n);
            },
            None => {
                self.references.insert(id, 1);
                self.values.insert(id, AssetValue::NotReady);
            },
        }
        Asset { id }
    }

    /// One more handle to the asset (a first one for a new asset), whose
    /// value becomes `asset` whether or not the server had it.
    fn add(&mut self, id: u64, asset: T) -> (r: Asset)
        ensures
            r.id == id,
            final(self).default == old(self).default,
            final(self).references@ == old(self).references@.insert(
                id,
                if old(self).references@.contains_key(id) { old(self).references@[id].wrapping_add(1) } else { 1 },
            ),
            final(self).values@ == old(self).values@.insert(id, AssetValue::Ready(asset)),
            old(self).wf() ==> final(self).wf(),
    {
        match self.references.get(&id) {
            Some(c) => {
                let n = c.wrapping_add(1);
                self.references.insert(id, n);
            },
            None => {
                self.references.insert(id, 1);
            },
        }
        self.values.insert(id, AssetValue::Ready(asset));
        Asset { id }
    }

    fn add_original(&mut self, asset: T)
        ensures
            final(self).default == Some(asset),
            final(self).values@ == old(self).values@,
            final(self).references@ == old(self).references@,
    {
        self.default = Some(asset);
    }
}

impl<T> Default for AssetServer<T> {
    fn default() -> (r: Self)
        ensures
            r.values@ == Map::<u64, AssetValue<T>>::empty(),
            r.references@ == Map::<u64, usize>::empty(),
            r.default is None,
    {
        AssetServer::new()
    }
}

/// The values of one type by id, counted by handle, as a resource of the
/// engine.
#[derive(Debug)]
pub struct CacheServer<T> {
    pub values: HashMap<u64, AssetValue<T>>,
    pub references: HashMap<u64, usize>,
    pub default: Option<T>,
}

impl<T> Default for CacheServer<T> {
    fn default() -> (r: Self)
        ensures
            r.values@ == Map::<u64, AssetValue<T>>::empty(),
            r.references@ == Map::<u64, usize>::empty(),
            r.default is None,
    {
        CacheServer { values: HashMap::new(), references: HashMap::new(), default: None }
    }
}

} // verus!
