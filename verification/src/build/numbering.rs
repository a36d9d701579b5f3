//! Numbering the outputs that a task body's statements add: each distinct
//! list of entity fields and each distinct signal name gets the next
//! number the first time it is met, and keeps it.

use vstd::prelude::*;
use crate::build::entities::pairs_view;
use crate::text::{contains_string, strs};

verus! {

/// The field lists numbered so far, as character sequences.
pub open spec fn entities_view(v: Seq<Vec<(String, String)>>) -> Seq<Seq<(Seq<char>, Seq<char>)>> {
    v.map_values(|f: Vec<(String, String)>| pairs_view(f@))
}

/// What has been numbered in one task body: the field lists of its
/// `add_entity!` statements and the names of its `signal!` statements,
/// each at its number, whether it holds a `Reset!`, and how many flags the
/// signals and the reset take.
pub struct MacroNumbering {
    pub entities: Vec<Vec<(String, String)>>,
    pub signals: Vec<String>,
    pub reset: bool,
    pub flags: usize,
}

impl MacroNumbering {
    /// No list or name is numbered twice, and each signal and the reset
    /// take one flag.
    pub open spec fn wf(self) -> bool {
        &&& entities_view(self.entities@).no_duplicates()
        &&& strs(self.signals@).no_duplicates()
        &&& self.flags == self.signals@.len() + (if self.reset { 1int } else { 0int })
    }

    /// Nothing numbered yet.
    pub fn new() -> (r: Self)
        ensures
            r.wf(),
            r.entities@ == Seq::<Vec<(String, String)>>::empty(),
            r.signals@ == Seq::<String>::empty(),
            !r.reset,
            r.flags == 0,
    {
        let r = MacroNumbering { entities: Vec::new(), signals: Vec::new(), reset: false, flags: 0 };
        assert(entities_view(r.entities@) =~= Seq::empty());
        assert(strs(r.signals@) =~= Seq::empty());
        r
    }

    /// The number of the field list `fields`, and whether it is new: a list
    /// met before keeps its number, a new one gets the next.
    pub fn entity(&mut self, fields: Vec<(String, String)>) -> (r: (usize, bool))
        requires
            old(self).wf(),
        ensures
            final(self).wf(),
            final(self).signals == old(self).signals,
            final(self).reset == old(self).reset,
            final(self).flags == old(self).flags,
            r.1 == !entities_view(old(self).entities@).contains(pairs_view(fields@)),
            r.1 ==> r.0 == old(self).entities@.len()
                && entities_view(final(self).entities@) == entities_view(old(self).entities@).push(pairs_view(fields@)),
            !r.1 ==> r.0 < old(self).entities@.len()
                && entities_view(old(self).entities@)[r.0 as int] == pairs_view(fields@)
                && final(self).entities@ == old(self).entities@,
    {
        let ghost ev = entities_view(self.entities@);
        let ghost fv = pairs_view(fields@);
        let mut i: usize = 0;
        while i < self.entities.len()
            invariant
                i <= self.entities@.len(),
                ev == entities_view(self.entities@),
                fv == pairs_view(fields@),
                self.wf(),
                forall|j: int| 0 <= j < i ==> ev[j] != fv,
            decreases self.entities@.len() - i,
        {
            if same_fields(&self.entities[i], &fields) {
                assert(ev[i as int] == fv);
                return (i, false);
            }
            i = i + 1;
        }
        proof {
            if ev.contains(fv) {
                let j = choose|j: int| 0 <= j < ev.len() && ev[j] == fv;
                assert(ev[j] != fv);
            }
        }
        let n = self.entities.len();
        self.entities.push(fields);
        assert(entities_view(self.entities@) =~= ev.push(fv));
        (n, true)
    }

    /// The number of the signal `name`, and whether it is new: a name met
    /// before keeps its number, a new one gets the next and takes a flag.
    pub fn signal(&mut self, name: String) -> (r: (usize, bool))
        requires
            old(self).wf(),
            old(self).flags < usize::MAX,
        ensures
            final(self).wf(),
            final(self).entities == old(self).entities,
            final(self).reset == old(self).reset,
            r.1 == !strs(old(self).signals@).contains(name@),
            r.1 ==> r.0 == old(self).signals@.len()
                && strs(final(self).signals@) == strs(old(self).signals@).push(name@)
                && final(self).flags == old(self).flags + 1,
            !r.1 ==> r.0 < old(self).signals@.len()
                && old(self).signals@[r.0 as int]@ == name@
                && final(self).signals@ == old(self).signals@
                && final(self).flags == old(self).flags,
    {
        let ghost sv = strs(self.signals@);
        if contains_string(&self.signals, &name) {
            let mut i: usize = 0;
            while i < self.signals.len()
                invariant
                    i <= self.signals@.len(),
                    sv == strs(self.signals@),
                    sv.contains(name@),
                    self.wf(),
                    forall|j: int| 0 <= j < i ==> sv[j] != name@,
                decreases self.signals@.len() - i,
            {
                if self.signals[i] == name {
                    assert(sv[i as int] == name@);
                    return (i, false);
                }
                i = i + 1;
            }
            proof {
                let j = choose|j: int| 0 <= j < sv.len() && sv[j] == name@;
                assert(sv[j] != name@);
            }
            (0, false)
        } else {
            let n = self.signals.len();
            let ghost nv = name@;
            self.signals.push(name);
            self.flags = self.flags + 1;
            assert(strs(self.signals@) =~= sv.push(nv));
            (n, true)
        }
    }

    /// Notes a `Reset!`: whether it is the body's first, which takes a flag.
    pub fn reset(&mut self) -> (r: bool)
        requires
            old(self).wf(),
            old(self).flags < usize::MAX,
        ensures
            final(self).wf(),
            final(self).entities == old(self).entities,
            final(self).signals == old(self).signals,
            final(self).reset,
            r == !old(self).reset,
            final(self).flags == old(self).flags + (if r { 1int } else { 0int }),
    {
        if self.reset {
            false
        } else {
            self.reset = true;
            self.flags = self.flags + 1;
            true
        }
    }
}

/// Whether two field lists are the same, field by field.
pub fn same_fields(a: &Vec<(String, String)>, b: &Vec<(String, String)>) -> (r: bool)
    ensures
        r == (pairs_view(a@) == pairs_view(b@)),
{
    if a.len() != b.len() {
        proof {
            if pairs_view(a@) == pairs_view(b@) {
                assert(pairs_view(a@).len() == pairs_view(b@).len());
            }
        }
        return false;
    }
    let mut i: usize = 0;
    while i < a.len()
        invariant
            i <= a@.len(),
            a@.len() == b@.len(),
            forall|j: int| 0 <= j < i ==> #[trigger] pairs_view(a@)[j] == pairs_view(b@)[j],
        decreases a@.len() - i,
    {
        if a[i].0 != b[i].0 || a[i].1 != b[i].1 {
            proof {
                if pairs_view(a@) == pairs_view(b@) {
                    assert(pairs_view(a@)[i as int] == pairs_view(b@)[i as int]);
                }
            }
            return false;
        }
        assert(pairs_view(a@)[i as int] == pairs_view(b@)[i as int]);
        i = i + 1;
    }
    assert(pairs_view(a@) =~= pairs_view(b@));
    true
}

} // verus!
