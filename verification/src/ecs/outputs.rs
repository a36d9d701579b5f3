//! What tasks hand back to the engine: new archetype members, signals and
//! resets.

use vstd::prelude::*;
use crate::text::{strs, push_unique};

verus! {

/// New members of an archetype, returned by a task.
pub struct RArch<T> {
    pub vec: Vec<T>,
}

impl<T> Default for RArch<T> {
    /// No members yet.
    fn default() -> (r: Self)
        ensures
            r.vec@ == Seq::<T>::empty(),
    {
        RArch { vec: Vec::new() }
    }
}

impl<T> RArch<T> {
    /// Adds one member.
    pub fn add(&mut self, t: T)
        ensures
            final(self).vec@ == old(self).vec@.push(t),
    {
        self.vec.push(t);
    }

    /// Adds several members, in order.
    pub fn add_multiple(&mut self, items: Vec<T>)
        ensures
            final(self).vec@ == old(self).vec@ + items@,
    {
        let mut items = items;
        self.vec.append(&mut items);
    }

    /// The members added so far.
    pub fn get(&self) -> (r: &Vec<T>)
        ensures
            r@ == self.vec@,
    {
        &self.vec
    }
}

/// The signals a task raised; each name is kept once.
pub struct Signal {
    pub vec: Vec<String>,
}

impl Default for Signal {
    /// No signal raised yet.
    fn default() -> (r: Self)
        ensures
            r.vec@ == Seq::<String>::empty(),
    {
        Signal { vec: Vec::new() }
    }
}

impl Signal {
    /// Raises the signal `signal`.
    pub fn trigger(&mut self, signal: &str)
        ensures
            strs(final(self).vec@).to_set() == strs(old(self).vec@).to_set().insert(signal@),
            strs(old(self).vec@).no_duplicates() ==> strs(final(self).vec@).no_duplicates(),
    {
        push_unique(&mut self.vec, signal.to_string());
    }
}

/// Set by a task to have the engine run its setup phase again.
pub struct Reset(bool);

impl Default for Reset {
    /// Not asked for yet.
    fn default() -> (r: Self)
        ensures
            !r@,
    {
        Reset(false)
    }
}

impl Reset {
    /// Whether the reset was asked for.
    pub closed spec fn view(self) -> bool {
        self.0
    }

    /// Asks for the reset.
    pub fn trigger(&mut self)
        ensures
            final(self)@,
    {
        self.0 = true;
    }

    /// Whether the reset was asked for.
    pub fn get(&self) -> (r: bool)
        ensures
            r == self@,
    {
        self.0
    }
}

} // verus!
