//! The archetypes a task reads: a view of the engine's storage.

use vstd::prelude::*;

verus! {

/// The storage of one archetype, as the engine's generated code provides it.
pub trait EngineArch<T> {
    /// The member at `index`, if there is one.
    spec fn item(&self, index: usize) -> Option<T>;

    /// The number of members.
    spec fn size(&self) -> usize;

    /// Marks the member at `index` for removal.
    fn remove(&self, index: usize);

    /// The number of members.
    fn len(&self) -> (r: usize)
        ensures
            r == self.size();

    /// The member at `index`, if there is one.
    fn get_item(&self, index: usize) -> (r: Option<T>)
        ensures
            r == self.item(index);
}

/// An archetype as a task input; iterate over it with `iter`.
#[verifier::reject_recursive_types(T)]
pub struct Arch<'a, T> {
    pub arch: &'a dyn EngineArch<T>,
    pub index: usize,
}

impl<'a, T> Arch<'a, T> {
    /// A view of `arch` starting at its first member.
    pub fn new(arch: &'a dyn EngineArch<T>) -> (r: Self)
        ensures
            r == (Arch { arch, index: 0 }),
    {
        Arch { arch, index: 0 }
    }

    /// Marks the member at `index` for removal.
    pub fn remove(&self, index: usize) {
        self.arch.remove(index);
    }

    /// The number of members.
    pub fn len(&self) -> (r: usize)
        ensures
            r == self.arch.size(),
    {
        self.arch.len()
    }

    /// A cursor over the members, from this view's position.
    pub fn iter(&self) -> (r: ArchIterator<'_, T>)
        ensures
            r == (ArchIterator { arch: self.arch, index: self.index }),
    {
        ArchIterator { arch: self.arch, index: self.index }
    }
}

/// A cursor over the members of an archetype.
#[verifier::reject_recursive_types(T)]
pub struct ArchIterator<'a, T> {
    pub arch: &'a dyn EngineArch<T>,
    pub index: usize,
}

impl<'a, T> ArchIterator<'a, T> {
    /// The member at the cursor, if any; the cursor moves on by one either
    /// way.
    pub fn next(&mut self) -> (r: Option<T>)
        requires
            old(self).index < usize::MAX,
        ensures
            r == old(self).arch.item(old(self).index),
            final(self).arch == old(self).arch,
            final(self).index == old(self).index + 1,
    {
        let result = self.arch.get_item(self.index);
        self.index = self.index + 1;
        result
    }
}

} // verus!
