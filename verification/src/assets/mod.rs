//! Asset and cache servers: the table of loaded values by id, shared by
//! every handle to them. An asset server counts the handles to each asset
//! and drops the asset with the last of them; a cache server keeps its
//! values. A value that is still loading reads as the server's default.
//!
//! The servers here are the tables themselves. Loading on another thread,
//! and the lock around a server that each handle reaches it through, belong
//! to the caller: a call that adds a new id says so, and the loaded value
//! goes in through `finish_load`.

use vstd::prelude::*;
use std::collections::HashMap;

pub mod comp;

verus! {

broadcast use vstd::std_specs::hash::group_hash_axioms;

/// A value of a server: loaded, or still loading.
#[derive(Debug)]
pub enum AssetValue<T> {
    Ready(T),
    NotReady,
}

/// What an id of a server reads as: its loaded value, or while it is
/// loading the server's default, if there is one.
pub open spec fn reads_as<T>(values: Map<u64, AssetValue<T>>, default: Option<T>, id: u64) -> Option<T> {
    match values[id] {
        AssetValue::Ready(t) => Some(t),
        AssetValue::NotReady => default,
    }
}

/// A type whose values can be read from a file.
pub trait AssetFile: Sized {
    fn load_file(file: &str) -> Result<Self, String>;
}

/// A handle to an asset of a server, by id.
#[derive(Debug, Clone, Copy, PartialEq, Eq, Structural)]
pub struct Asset {
    pub id: u64,
}

/// The assets of one type by id, with the number of handles to each, and
/// the value an asset reads as while it loads.
#[derive(Debug)]
pub struct AssetServer<T> {
    pub values: HashMap<u64, AssetValue<T>>,
    pub references: HashMap<u64, usize>,
    pub default: Option<T>,
}

impl<T> AssetServer<T> {
    /// Every asset has a count of handles, and every count an asset.
    pub open spec fn wf(&self) -> bool {
        forall|k: u64| #[trigger] self.values@.contains_key(k) <==> self.references@.contains_key(k)
    }

    /// An empty server with no default.
    pub fn new() -> (r: Self)
        ensures
            r.wf(),
            r.values@ == Map::<u64, AssetValue<T>>::empty(),
            r.references@ == Map::<u64, usize>::empty(),
            r.default is None,
    {
        AssetServer { values: HashMap::new(), references: HashMap::new(), default: None }
    }

    /// Sets the value that assets read as while they load.
    pub fn add_default(&mut self, asset: T)
        ensures
            final(self).default == Some(asset),
            final(self).values@ == old(self).values@,
            final(self).references@ == old(self).references@,
    {
        self.default = Some(asset);
    }

    /// A handle to the asset `id`, if the server has it. Handles got this
    /// way are not counted.
    pub fn get(&self, id: u64) -> (r: Option<Asset>)
        ensures
            r is Some <==> self.values@.contains_key(id),
            r matches Some(a) ==> a.id == id,
    {
        if self.values.contains_key(&id) {
            Some(Asset { id })
        } else {
            None
        }
    }

    /// Adds a handle to the asset `id`: one more for an asset the server
    /// has (the count wraps as an atomic counter does); a new asset with
    /// one handle, still loading, otherwise. Says whether the asset is new,
    /// so that its loading has to be started.
    pub fn add(&mut self, id: u64) -> (r: (Asset, bool))
        requires
            old(self).wf(),
        ensures
            final(self).wf(),
            r.0.id == id,
            r.1 == !old(self).references@.contains_key(id),
            final(self).default == old(self).default,
            old(self).references@.contains_key(id) ==> final(self).references@ == old(self).references@.insert(
                id,
                old(self).references@[id].wrapping_add(1),
            ) && final(self).values@ == old(self).values@,
            !old(self).references@.contains_key(id) ==> final(self).references@ == old(self).references@.insert(id, 1)
                && final(self).values@ == old(self).values@.insert(id, AssetValue::NotReady),
    {
        match self.references.get(&id) {
            Some(c) => {
                let n = c.wrapping_add(1);
                self.references.insert(id, n);
                (Asset { id }, false)
            },
            None => {
                self.references.insert(id, 1);
                self.values.insert(id, AssetValue::NotReady);
                (Asset { id }, true)
            },
        }
    }

    /// Puts the loaded value of the asset `id` in place, if the server
    /// still has the asset.
    pub fn finish_load(&mut self, id: u64, value: T)
        ensures
            final(self).values@ == if old(self).values@.contains_key(id) {
                old(self).values@.insert(id, AssetValue::Ready(value))
            } else {
                old(self).values@
            },
            final(self).references@ == old(self).references@,
            final(self).default == old(self).default,
    {
        if self.values.contains_key(&id) {
            self.values.insert(id, AssetValue::Ready(value));
        }
    }

    /// Adds a handle to the asset `id` as `add` does, and for a new asset
    /// loads it at once with `asset`: a loaded value goes in place, an
    /// error leaves the asset loading.
    pub fn add_sync<E, F: FnOnce() -> Result<T, E>>(&mut self, id: u64, asset: F) -> (r: Asset)
        requires
            old(self).wf(),
            call_requires(asset, ()),
        ensures
            final(self).wf(),
            r.id == id,
            final(self).default == old(self).default,
            old(self).references@.contains_key(id) ==> final(self).references@ == old(self).references@.insert(
                id,
                old(self).references@[id].wrapping_add(1),
            ) && final(self).values@ == old(self).values@,
            !old(self).references@.contains_key(id) ==> final(self).references@ == old(self).references@.insert(id, 1)
                && exists|res: Result<T, E>| #[trigger] call_ensures(asset, (), res) && final(self).values@
                    == old(self).values@.insert(id, match res {
                        Ok(v) => AssetValue::Ready(v),
                        Err(_) => AssetValue::NotReady,
                    }),
    {
        let (a, fresh) = self.add(id);
        if fresh {
            let res = asset();
            match res {
                Ok(v) => {
                    self.finish_load(id, v);
                },
                Err(_) => {},
            }
        }
        a
    }

    /// A handle to the asset `id` if the server has it, else one from
    /// `add`; says whether loading has to be started.
    pub fn get_or_add(&mut self, id: u64) -> (r: (Asset, bool))
        requires
            old(self).wf(),
        ensures
            final(self).wf(),
            r.0.id == id,
            r.1 == !old(self).values@.contains_key(id),
            final(self).default == old(self).default,
            old(self).values@.contains_key(id) ==> final(self).values@ == old(self).values@
                && final(self).references@ == old(self).references@,
            !old(self).values@.contains_key(id) ==> final(self).references@ == old(self).references@.insert(id, 1)
                && final(self).values@ == old(self).values@.insert(id, AssetValue::NotReady),
    {
        match self.get(id) {
            Some(a) => (a, false),
            None => self.add(id),
        }
    }

    /// A handle to the asset `id` if the server has it, else one from
    /// `add_sync`.
    pub fn get_or_add_sync<E, F: FnOnce() -> Result<T, E>>(&mut self, id: u64, asset: F) -> (r: Asset)
        requires
            old(self).wf(),
            call_requires(asset, ()),
        ensures
            final(self).wf(),
            r.id == id,
            final(self).default == old(self).default,
            old(self).values@.contains_key(id) ==> final(self).values@ == old(self).values@
                && final(self).references@ == old(self).references@,
            !old(self).values@.contains_key(id) ==> final(self).references@ == old(self).references@.insert(id, 1)
                && exists|res: Result<T, E>| #[trigger] call_ensures(asset, (), res) && final(self).values@
                    == old(self).values@.insert(id, match res {
                        Ok(v) => AssetValue::Ready(v),
                        Err(_) => AssetValue::NotReady,
                    }),
    {
        match self.get(id) {
            Some(a) => a,
            None => self.add_sync(id, asset),
        }
    }

    /// Counts one more handle to the asset of `a`, as cloning a handle does.
    pub fn retain(&mut self, a: &Asset)
        requires
            old(self).wf(),
            old(self).references@.contains_key(a.id),
        ensures
            final(self).wf(),
            final(self).references@ == old(self).references@.insert(a.id, old(self).references@[a.id].wrapping_add(1)),
            final(self).values@ == old(self).values@,
            final(self).default == old(self).default,
    {
        match self.references.get(&a.id) {
            Some(c) => {
                let n = c.wrapping_add(1);
                self.references.insert(a.id, n);
            },
            None => {},
        }
    }

    /// Counts one handle fewer to the asset of `a`, as dropping a handle
    /// does: the count goes down by one (wrapping), and where it already
    /// stood at 0 the asset leaves the server.
    pub fn release(&mut self, a: &Asset)
        requires
            old(self).wf(),
            old(self).references@.contains_key(a.id),
        ensures
            final(self).wf(),
            final(self).default == old(self).default,
            old(self).references@[a.id] == 0 ==> final(self).references@ == old(self).references@.remove(a.id)
                && final(self).values@ == old(self).values@.remove(a.id),
            old(self).references@[a.id] != 0 ==> final(self).references@ == old(self).references@.insert(
                a.id,
                (old(self).references@[a.id] - 1) as usize,
            ) && final(self).values@ == old(self).values@,
    {
        match self.references.get(&a.id) {
            Some(c) => {
                let before = *c;
                if before == 0 {
                    self.references.remove(&a.id);
                    self.values.remove(&a.id);
                } else {
                    self.references.insert(a.id, before - 1);
                }
            },
            None => {},
        }
    }

    /// What the asset of `a` reads as now: its value once loaded, the
    /// default while it loads; none while it loads without a default.
    pub fn value(&self, a: &Asset) -> (r: Option<&T>)
        requires
            self.values@.contains_key(a.id),
        ensures
            match r {
                Some(t) => reads_as(self.values@, self.default, a.id) == Some(*t),
                None => reads_as(self.values@, self.default, a.id) is None,
            },
    {
        match self.values.get(&a.id) {
            Some(AssetValue::Ready(t)) => Some(t),
            _ => self.default.as_ref(),
        }
    }
}

impl<T> Default for AssetServer<T> {
    fn default() -> (r: Self)
        ensures
            r.values@ == Map::<u64, AssetValue<T>>::empty(),
            r.references@ == Map::<u64, usize>::empty(),
            r.default is None,
    {
        AssetServer::new()
    }
}

/// A type whose values a cache server can read from a file.
pub trait CacheFile: Sized {
    fn load_file(file: &str) -> Result<Self, String>;
}

/// A value of a cache server: loaded, or still loading.
pub type CacheValue<T> = AssetValue<T>;

/// A handle to a value of a cache server, by id.
#[derive(Debug, Clone, Copy, PartialEq, Eq, Structural)]
pub struct Cache {
    pub id: u64,
}

/// The values of one type by id, kept for as long as the server lives, and
/// the value one reads as while it loads.
#[derive(Debug)]
pub struct CacheServer<T> {
    pub values: HashMap<u64, CacheValue<T>>,
    pub default: Option<T>,
}

impl<T> CacheServer<T> {
    /// An empty server with no default.
    pub fn new() -> (r: Self)
        ensures
            r.values@ == Map::<u64, AssetValue<T>>::empty(),
            r.default is None,
    {
        CacheServer { values: HashMap::new(), default: None }
    }

    /// Sets the value that values read as while they load.
    pub fn add_default(&mut self, asset: T)
        ensures
            final(self).default == Some(asset),
            final(self).values@ == old(self).values@,
    {
        self.default = Some(asset);
    }

    /// A handle to the value `id`, if the server has it.
    pub fn get(&self, id: u64) -> (r: Option<Cache>)
        ensures
            r is Some <==> self.values@.contains_key(id),
            r matches Some(c) ==> c.id == id,
    {
        if self.values.contains_key(&id) {
            Some(Cache { id })
        } else {
            None
        }
    }

    /// A handle to the value `id`; a new value, still loading, where the
    /// server does not have it. Says whether the value is new, so that its
    /// loading has to be started.
    pub fn add(&mut self, id: u64) -> (r: (Cache, bool))
        ensures
            r.0.id == id,
            r.1 == !old(self).values@.contains_key(id),
            final(self).default == old(self).default,
            final(self).values@ == if old(self).values@.contains_key(id) {
                old(self).values@
            } else {
                old(self).values@.insert(id, AssetValue::NotReady)
            },
    {
        if self.values.contains_key(&id) {
            (Cache { id }, false)
        } else {
            self.values.insert(id, AssetValue::NotReady);
            (Cache { id }, true)
        }
    }

    /// Puts the loaded value `id` in place, if the server has it.
    pub fn finish_load(&mut self, id: u64, value: T)
        ensures
            final(self).values@ == if old(self).values@.contains_key(id) {
                old(self).values@.insert(id, AssetValue::Ready(value))
            } else {
                old(self).values@
            },
            final(self).default == old(self).default,
    {
        if self.values.contains_key(&id) {
            self.values.insert(id, AssetValue::Ready(value));
        }
    }

    /// A handle to the value `id` as `add` gives it, a new value loaded at
    /// once with `asset`. Putting a loaded value in place takes the server's
    /// lock a second time while it is held, which never returns; so for a
    /// new value `asset` must fail, and the value stays loading.
    pub fn add_sync<E, F: FnOnce() -> Result<T, E>>(&mut self, id: u64, asset: F) -> (r: Cache)
        requires
            call_requires(asset, ()),
            !old(self).values@.contains_key(id) ==> forall|res: Result<T, E>| #[trigger] call_ensures(asset, (), res) ==> res is Err,
        ensures
            r.id == id,
            final(self).default == old(self).default,
            final(self).values@ == if old(self).values@.contains_key(id) {
                old(self).values@
            } else {
                old(self).values@.insert(id, AssetValue::NotReady)
            },
    {
        let (c, fresh) = self.add(id);
        if fresh {
            let res = asset();
            match res {
                Ok(v) => {
                    proof {
                        assert(false);
                    }
                },
                Err(_) => {},
            }
        }
        c
    }

    /// A handle to the value `id` if the server has it, else one from
    /// `add`; says whether loading has to be started.
    pub fn get_or_add(&mut self, id: u64) -> (r: (Cache, bool))
        ensures
            r.0.id == id,
            r.1 == !old(self).values@.contains_key(id),
            final(self).default == old(self).default,
            final(self).values@ == if old(self).values@.contains_key(id) {
                old(self).values@
            } else {
                old(self).values@.insert(id, AssetValue::NotReady)
            },
    {
        match self.get(id) {
            Some(c) => (c, false),
            None => self.add(id),
        }
    }

    /// A handle to the value `id` if the server has it, else one from
    /// `add_sync`.
    pub fn get_or_add_sync<E, F: FnOnce() -> Result<T, E>>(&mut self, id: u64, asset: F) -> (r: Cache)
        requires
            call_requires(asset, ()),
            !old(self).values@.contains_key(id) ==> forall|res: Result<T, E>| #[trigger] call_ensures(asset, (), res) ==> res is Err,
        ensures
            r.id == id,
            final(self).default == old(self).default,
            final(self).values@ == if old(self).values@.contains_key(id) {
                old(self).values@
            } else {
                old(self).values@.insert(id, AssetValue::NotReady)
            },
    {
        match self.get(id) {
            Some(c) => c,
            None => self.add_sync(id, asset),
        }
    }

    /// What the value of `c` reads as now.
    pub fn value(&self, c: &Cache) -> (r: Option<&T>)
        requires
            self.values@.contains_key(c.id),
        ensures
            match r {
                Some(t) => reads_as(self.values@, self.default, c.id) == Some(*t),
                None => reads_as(self.values@, self.default, c.id) is None,
            },
    {
        match self.values.get(&c.id) {
            Some(AssetValue::Ready(t)) => Some(t),
            _ => self.default.as_ref(),
        }
    }
}

impl<T> Default for CacheServer<T> {
    fn default() -> (r: Self)
        ensures
            r.values@ == Map::<u64, AssetValue<T>>::empty(),
            r.default is None,
    {
        CacheServer::new()
    }
}


/// A new asset reads as the server's default until its load finishes, and
/// as the loaded value after.
pub proof fn lemma_new_asset_reads<T>(values: Map<u64, AssetValue<T>>, default: Option<T>, id: u64, v: T)
    requires
        !values.contains_key(id),
    ensures
        reads_as(values.insert(id, AssetValue::NotReady), default, id) == default,
        reads_as(values.insert(id, AssetValue::NotReady).insert(id, AssetValue::Ready(v)), default, id) == Some(v),
{
}

/// Counting one more handle and then one fewer leaves the counts as they
/// were, for a count below the counter's limit.
pub proof fn lemma_retain_release(references: Map<u64, usize>, id: u64)
    requires
        references.contains_key(id),
        references[id] < usize::MAX,
    ensures
        references[id].wrapping_add(1) != 0,
        references.insert(id, references[id].wrapping_add(1)).insert(
            id,
            (references[id].wrapping_add(1) - 1) as usize,
        ) == references,
{
    assert(references.insert(id, references[id].wrapping_add(1)).insert(id, (references[id].wrapping_add(1) - 1) as usize)
        =~= references);
}

/// A new asset has one handle; dropping it leaves the count at 0, and only
/// dropping a further, uncounted handle takes the asset out of the server.
pub proof fn lemma_first_release_keeps(references: Map<u64, usize>, id: u64)
    requires
        !references.contains_key(id),
    ensures
        references.insert(id, 1)[id] != 0,
        references.insert(id, 1).insert(id, (references.insert(id, 1)[id] - 1) as usize)[id] == 0,
{
}

} // verus!
