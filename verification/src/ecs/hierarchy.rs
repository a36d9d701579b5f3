//! Members of a hierarchy: values with ids, meant to be linked as parents
//! and children so that a change to a parent is passed on to its children.
//!
//! Ids are handed out from a counter, and the ids of removed entries are
//! handed out again, the most recently removed first. Entries are never
//! registered in the hierarchy's node table (`new_entry` only hands out an
//! id), so the table stays empty: linking two entries always fails, and no
//! entry ever has a parent or children.

use std::collections::{HashMap, HashSet};
use std::sync::Arc;
use vstd::prelude::*;
use vstd::rwlock::{ReadHandle, RwLock, RwLockPredicate, WriteHandle};
use crate::ecs::{MadeWith, Reference, share};

verus! {

broadcast use vstd::std_specs::hash::group_hash_axioms;

/// How a value reacts to being linked under a parent, or unlinked.
pub trait SharedBehavior {
    /// Called on a child with its parent's value when it is linked.
    fn shaded_add_behavior(&mut self, parent: &Self);

    /// Called on a child when it is unlinked.
    fn shaded_remove_behavior(&mut self);
}

/// The bookkeeping of a hierarchy: the id counter, the ids given back, and
/// the tables of nodes and of parent and child links.
pub struct HierarchyData<T> {
    latest_id: u64,
    discarded_id: Vec<u64>,
    nodes: HashMap<u64, Arc<RwLock<Reference<T>, MadeWith<Reference<T>>>>>,
    dependencies: HashMap<u64, u64>,
    dependents: HashMap<u64, HashSet<u64>>,
}

impl<T> HierarchyData<T> {
    /// The tables are empty: nothing ever registers a node, and links are
    /// made only between registered nodes.
    pub closed spec fn wf(self) -> bool {
        &&& self.nodes@ == Map::<u64, Arc<RwLock<Reference<T>, MadeWith<Reference<T>>>>>::empty()
        &&& self.dependencies@ == Map::<u64, u64>::empty()
        &&& self.dependents@ == Map::<u64, HashSet<u64>>::empty()
    }

    /// The next id the counter gives.
    pub closed spec fn latest(self) -> u64 {
        self.latest_id
    }

    /// The ids given back, oldest first.
    pub closed spec fn discarded(self) -> Seq<u64> {
        self.discarded_id@
    }

    /// The id the next entry gets: the most recently given back one, or
    /// else the counter's.
    pub open spec fn next_id(self) -> u64 {
        if self.discarded().len() > 0 {
            self.discarded().last()
        } else {
            self.latest()
        }
    }

    /// Fresh bookkeeping: the counter at 0, nothing given back.
    pub fn new() -> (r: Self)
        ensures
            r.wf(),
            r.latest() == 0,
            r.discarded() == Seq::<u64>::empty(),
    {
        HierarchyData {
            latest_id: 0,
            discarded_id: Vec::new(),
            nodes: HashMap::new(),
            dependencies: HashMap::new(),
            dependents: HashMap::new(),
        }
    }

    /// Hands out an id: the most recently given back one, else the counter's
    /// (the counter then moves on, wrapping at the top of `u64`).
    pub fn take_id(&mut self) -> (id: u64)
        requires
            old(self).wf(),
        ensures
            final(self).wf(),
            id == old(self).next_id(),
            old(self).discarded().len() > 0 ==> final(self).discarded() == old(self).discarded().drop_last()
                && final(self).latest() == old(self).latest(),
            old(self).discarded().len() == 0 ==> final(self).discarded() == old(self).discarded()
                && final(self).latest() == old(self).latest().wrapping_add(1),
    {
        match self.discarded_id.pop() {
            Some(v) => v,
            None => {
                let id = self.latest_id;
                self.latest_id = self.latest_id.wrapping_add(1);
                id
            },
        }
    }

    /// Removes an entry: its id is given back, its parent link dropped, and
    /// its node (which it never has) expired.
    pub fn discard(&mut self, entry: u64)
        requires
            old(self).wf(),
        ensures
            final(self).wf(),
            final(self).discarded() == old(self).discarded().push(entry),
            final(self).latest() == old(self).latest(),
    {
        self.discarded_id.push(entry);
        self.dependencies.remove(&entry);
        match self.dependents.remove(&entry) {
            Some(_) => {
                proof {
                    assert(false);
                }
            },
            None => {},
        }
        match self.nodes.remove(&entry) {
            Some(t) => {
                proof {
                    assert(false);
                }
            },
            None => {},
        }
        proof {
            assert(self.dependencies@ =~= Map::<u64, u64>::empty());
            assert(self.dependents@ =~= Map::<u64, HashSet<u64>>::empty());
            assert(self.nodes@ =~= Map::<u64, Arc<RwLock<Reference<T>, MadeWith<Reference<T>>>>>::empty());
        }
    }
}

/// The invariant a hierarchy's lock keeps.
pub struct HierarchyInv;

impl<T> RwLockPredicate<HierarchyData<T>> for HierarchyInv {
    open spec fn inv(self, d: HierarchyData<T>) -> bool {
        d.wf()
    }
}

/// A hierarchy shared by its members.
pub struct Hierarchy<T: SharedBehavior> {
    data: Arc<RwLock<HierarchyData<T>, HierarchyInv>>,
}

impl<T: SharedBehavior> Hierarchy<T> {
    /// The lock the bookkeeping is kept in.
    pub closed spec fn cell(self) -> RwLock<HierarchyData<T>, HierarchyInv> {
        *self.data
    }

    /// The lock holds well-formed bookkeeping.
    pub closed spec fn inv(self) -> bool {
        self.data.pred() == HierarchyInv
    }

    /// An empty hierarchy.
    pub fn new() -> (r: Self)
        ensures
            r.inv(),
    {
        Hierarchy { data: Arc::new(RwLock::new(HierarchyData::new(), Ghost(HierarchyInv))) }
    }

    /// Another handle to the same hierarchy.
    pub fn clone(&self) -> (r: Self)
        ensures
            r.cell() == self.cell(),
            self.inv() ==> r.inv(),
    {
        Hierarchy { data: share(&self.data) }
    }

    /// A new member holding `value`, with the next id. Which id that is
    /// depends on the shared bookkeeping, of which only the invariant is
    /// known; `HierarchyData::take_id` states it of the bookkeeping itself.
    pub fn new_entry(&self, value: T) -> (r: Member<T>)
        requires
            self.inv(),
        ensures
            r.hierarchy.cell() == self.cell(),
            r.hierarchy.inv(),
            r.made_with() == Reference::Present(value),
    {
        let (mut d, handle) = self.data.acquire_write();
        let id = d.take_id();
        handle.release_write(d);
        let ghost pred = MadeWith { first: Reference::Present(value) };
        Member {
            id,
            hierarchy: self.clone(),
            value: Arc::new(RwLock::new(Reference::Present(value), Ghost(pred))),
        }
    }

    /// The parent of `child`. No entry has one, so this is always `None`.
    pub fn get_parent(&self, child: &u64) -> (r: Option<Member<T>>)
        requires
            self.inv(),
        ensures
            r is None,
    {
        let handle = self.data.acquire_read();
        let d = handle.borrow();
        let r = match d.dependencies.get(child) {
            Some(i) => {
                match d.nodes.get(i) {
                    Some(data) => Some(
                        Member { id: *i, hierarchy: self.clone(), value: share(data) },
                    ),
                    None => None,
                }
            },
            None => None,
        };
        handle.release_read();
        r
    }

    /// The children of `parent`. No entry has any, so this is always empty.
    pub fn get_children(&self, parent: &u64) -> (r: Vec<Member<T>>)
        requires
            self.inv(),
        ensures
            r@.len() == 0,
    {
        let handle = self.data.acquire_read();
        let d = handle.borrow();
        let r: Vec<Member<T>> = match d.dependents.get(parent) {
            Some(_) => {
                proof {
                    assert(false);
                }
                Vec::new()
            },
            None => Vec::new(),
        };
        handle.release_read();
        r
    }

    /// Unlinks `child` from its parent and gives back the parent's id. No
    /// entry has a parent, so this is always `None`.
    pub fn remove_parent(&self, child: &u64) -> (r: Option<u64>)
        requires
            self.inv(),
        ensures
            r is None,
    {
        let (mut d, handle) = self.data.acquire_write();
        let r = d.dependencies.remove(child);
        proof {
            assert(d.dependencies@ =~= Map::<u64, u64>::empty());
        }
        handle.release_write(d);
        r
    }

    /// Unlinks `child` from `parent` if it is linked there (it never is).
    pub fn remove_child(&self, parent: &u64, child: &u64)
        requires
            self.inv(),
    {
        let (d, handle) = self.data.acquire_write();
        match d.dependencies.get(child) {
            Some(p) => {
                proof {
                    assert(false);
                }
            },
            None => {},
        }
        handle.release_write(d);
    }

    /// Unlinks all children of `parent` (it has none).
    pub fn remove_children(&self, parent: &u64)
        requires
            self.inv(),
    {
        let (mut d, handle) = self.data.acquire_write();
        match d.dependents.remove(parent) {
            Some(_) => {
                proof {
                    assert(false);
                }
            },
            None => {},
        }
        proof {
            assert(d.dependents@ =~= Map::<u64, HashSet<u64>>::empty());
        }
        handle.release_write(d);
    }

    /// Links `child` under `parent`. Both must be nodes of the hierarchy,
    /// and no entry is, so this always fails with "Both nodes must exist in
    /// the graph".
    pub fn add_as_child(&self, parent: &u64, child: &u64) -> (r: Result<(), &'static str>)
        requires
            self.inv(),
        ensures
            r == Err::<(), &'static str>("Both nodes must exist in the graph"),
    {
        let (d, handle) = self.data.acquire_write();
        if !d.nodes.contains_key(child) || !d.nodes.contains_key(parent) {
            handle.release_write(d);
            return Err("Both nodes must exist in the graph");
        }
        proof {
            assert(false);
        }
        handle.release_write(d);
        Ok(())
    }

    /// Removes `entry` from the hierarchy: its id is given back to be
    /// handed out again. The bookkeeping lives in a shared lock, of whose
    /// contents only the invariant is known, so the contract does not say
    /// which ids are given back; `HierarchyData::discard` states it of the
    /// bookkeeping itself.
    pub fn remove_entry(&self, entry: &u64)
        requires
            self.inv(),
    {
        let (mut d, handle) = self.data.acquire_write();
        d.discard(*entry);
        handle.release_write(d);
    }

    /// Passes a change of `entry` on to its children (it has none).
    pub fn shared_behavior(&self, entry: &u64)
        requires
            self.inv(),
    {
        let handle = self.data.acquire_read();
        let d = handle.borrow();
        match d.dependents.get(entry) {
            Some(_) => {
                proof {
                    assert(false);
                }
            },
            None => {},
        }
        handle.release_read();
    }

    /// The members that have a parent. No entry has one, so this is always
    /// empty.
    pub fn get_roots(&self) -> (r: Vec<Member<T>>)
        requires
            self.inv(),
        ensures
            r@.len() == 0,
    {
        let handle = self.data.acquire_read();
        let d = handle.borrow();
        let n = d.nodes.len();
        proof {
            assert(d.nodes@.len() == 0);
        }
        handle.release_read();
        Vec::new()
    }
}

impl<T: SharedBehavior> Default for Hierarchy<T> {
    /// An empty hierarchy.
    fn default() -> (r: Self)
        ensures
            r.inv(),
    {
        Hierarchy::new()
    }
}

/// A value in a hierarchy, with its id.
pub struct Member<T: SharedBehavior + 'static> {
    pub id: u64,
    pub hierarchy: Hierarchy<T>,
    pub value: Arc<RwLock<Reference<T>, MadeWith<Reference<T>>>>,
}

impl<T: SharedBehavior> Member<T> {
    /// The value the member's cell was made with.
    pub open spec fn made_with(self) -> Reference<T> {
        self.value.pred().first
    }

    /// A new member of `hierarchy` holding `value`.
    pub fn new(value: T, hierarchy: &Hierarchy<T>) -> (r: Member<T>)
        requires
            hierarchy.inv(),
        ensures
            r.hierarchy.cell() == hierarchy.cell(),
            r.hierarchy.inv(),
            r.made_with() == Reference::Present(value),
    {
        hierarchy.new_entry(value)
    }

    /// Another handle to the same member.
    pub fn clone(&self) -> (r: Member<T>)
        ensures
            r.id == self.id,
            r.hierarchy.cell() == self.hierarchy.cell(),
            self.hierarchy.inv() ==> r.hierarchy.inv(),
            r.value == self.value,
    {
        Member { id: self.id, hierarchy: self.hierarchy.clone(), value: share(&self.value) }
    }

    /// Waits for and takes a read lock on the value.
    pub fn read(&self) -> (r: ReadHandle<'_, Reference<T>, MadeWith<Reference<T>>>)
        ensures
            r.rwlock() == *self.value,
    {
        self.value.acquire_read()
    }

    /// As `read`; the lock cannot be poisoned, so `massage` is never shown.
    pub fn e_read(&self, massage: &str) -> (r: ReadHandle<'_, Reference<T>, MadeWith<Reference<T>>>)
        ensures
            r.rwlock() == *self.value,
    {
        self.value.acquire_read()
    }

    /// As `read`.
    pub fn f_read(&self) -> (r: ReadHandle<'_, Reference<T>, MadeWith<Reference<T>>>)
        ensures
            r.rwlock() == *self.value,
    {
        self.value.acquire_read()
    }

    /// Waits for and takes the write lock, without passing the change on.
    pub fn dry_write(&self) -> (r: (Reference<T>, WriteHandle<'_, Reference<T>, MadeWith<Reference<T>>>))
        ensures
            r.1.rwlock() == *self.value,
    {
        self.value.acquire_write()
    }

    /// As `dry_write`; the lock cannot be poisoned, so `massage` is never
    /// shown.
    pub fn dry_e_write(&self, massage: &str) -> (r: (Reference<T>, WriteHandle<'_, Reference<T>, MadeWith<Reference<T>>>))
        ensures
            r.1.rwlock() == *self.value,
    {
        self.value.acquire_write()
    }

    /// As `dry_write`.
    pub fn dry_f_write(&self) -> (r: (Reference<T>, WriteHandle<'_, Reference<T>, MadeWith<Reference<T>>>))
        ensures
            r.1.rwlock() == *self.value,
    {
        self.value.acquire_write()
    }

    /// Replaces the value by what `func` makes of it, under the write lock,
    /// then passes the change on to the member's children. `func` is called
    /// once, on the value the cell holds when the lock is taken.
    pub fn write(&self, func: impl FnOnce(Reference<T>) -> Reference<T>)
        requires
            self.hierarchy.inv(),
            forall|v: Reference<T>| #[trigger] func.requires((v,)),
        ensures
            exists|v: Reference<T>, nv: Reference<T>| #[trigger] func.ensures((v,), nv),
    {
        let (v, handle) = self.value.acquire_write();
        let ghost old_v = v;
        let nv = func(v);
        assert(func.ensures((old_v,), nv));
        handle.release_write(nv);
        self.hierarchy.shared_behavior(&self.id);
    }

    /// As `write`; the lock cannot be poisoned, so `massage` is never shown.
    pub fn e_write(&self, func: impl FnOnce(Reference<T>) -> Reference<T>, massage: &str)
        requires
            self.hierarchy.inv(),
            forall|v: Reference<T>| #[trigger] func.requires((v,)),
        ensures
            exists|v: Reference<T>, nv: Reference<T>| #[trigger] func.ensures((v,), nv),
    {
        let (v, handle) = self.value.acquire_write();
        let ghost old_v = v;
        let nv = func(v);
        assert(func.ensures((old_v,), nv));
        handle.release_write(nv);
        self.hierarchy.shared_behavior(&self.id);
    }

    /// As `write`.
    pub fn f_write(&self, func: impl FnOnce(Reference<T>) -> Reference<T>)
        requires
            self.hierarchy.inv(),
            forall|v: Reference<T>| #[trigger] func.requires((v,)),
        ensures
            exists|v: Reference<T>, nv: Reference<T>| #[trigger] func.ensures((v,), nv),
    {
        let (v, handle) = self.value.acquire_write();
        let ghost old_v = v;
        let nv = func(v);
        assert(func.ensures((old_v,), nv));
        handle.release_write(nv);
        self.hierarchy.shared_behavior(&self.id);
    }

    /// The member's children (always none).
    pub fn get_children(&self) -> (r: Vec<Member<T>>)
        requires
            self.hierarchy.inv(),
        ensures
            r@.len() == 0,
    {
        self.hierarchy.get_children(&self.id)
    }

    /// The member's parent (always none).
    pub fn get_parent(&self) -> (r: Option<Member<T>>)
        requires
            self.hierarchy.inv(),
        ensures
            r is None,
    {
        self.hierarchy.get_parent(&self.id)
    }

    /// Unlinks `child` from this member.
    pub fn remove_child(&self, child: &Member<T>)
        requires
            self.hierarchy.inv(),
    {
        self.hierarchy.remove_child(&self.id, &child.id);
    }

    /// Unlinks the member with id `child` from this member.
    pub fn remove_child_by_id(&self, child: &u64)
        requires
            self.hierarchy.inv(),
    {
        self.hierarchy.remove_child(&self.id, child);
    }

    /// Unlinks all of this member's children.
    pub fn remove_children(&self)
        requires
            self.hierarchy.inv(),
    {
        self.hierarchy.remove_children(&self.id)
    }

    /// Unlinks this member from its parent (it has none: `None`).
    pub fn remove_parent(&self) -> (r: Option<u64>)
        requires
            self.hierarchy.inv(),
        ensures
            r is None,
    {
        self.hierarchy.remove_parent(&self.id)
    }

    /// Removes the member from its hierarchy; its id is handed out again.
    pub fn expire(&mut self)
        requires
            old(self).hierarchy.inv(),
        ensures
            final(self).id == old(self).id,
            final(self).hierarchy.cell() == old(self).hierarchy.cell(),
            final(self).hierarchy.inv(),
    {
        self.hierarchy.remove_entry(&self.id)
    }
}

/// Removing an entry and then adding one gives the removed entry's id back.
pub proof fn lemma_discarded_id_reused<T>(d: HierarchyData<T>, d2: HierarchyData<T>, entry: u64)
    requires
        d2.discarded() == d.discarded().push(entry),
    ensures
        d2.next_id() == entry,
{
}

} // verus!
