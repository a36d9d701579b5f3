//! What a task's run condition refers to.

use vstd::prelude::*;
use crate::build::dependency::LogicalExpression;
use crate::text::{strs, push_unique};

verus! {

impl LogicalExpression {
    /// The names of the states that the condition compares, looking into
    /// groups (but not into negations).
    pub open spec fn state_names(self) -> Set<Seq<char>>
        decreases self, 0nat,
    {
        match self {
            LogicalExpression::State(t, _) => set![t@],
            LogicalExpression::Grouped(v) => state_names_of(v@),
            _ => Set::empty(),
        }
    }

    /// The state names the condition compares, each once.
    pub fn get_states(&self) -> (r: Vec<String>)
        ensures
            strs(r@).no_duplicates(),
            strs(r@).to_set() == self.state_names(),
        decreases self,
    {
        let mut values: Vec<String> = Vec::new();
        match self {
            LogicalExpression::State(t, _) => {
                push_unique(&mut values, t.clone());
                proof {
                    assert(strs(Seq::<String>::empty()).to_set() =~= Set::<Seq<char>>::empty());
                    assert(Set::<Seq<char>>::empty().insert(t@) =~= set![t@]);
                }
            },
            LogicalExpression::Grouped(v) => {
                let mut i: usize = 0;
                proof {
                    assert(decreases_to!(self => v));
                    assert forall|j: int| 0 <= j < v@.len() implies decreases_to!(self => v@[j]) by {
                        assert(decreases_to!(v => v@[j]));
                    }
                    assert(v@.take(0) =~= Seq::<LogicalExpression>::empty());
                    assert(strs(values@).to_set() =~= Set::<Seq<char>>::empty());
                }
                while i < v.len()
                    invariant
                        forall|j: int| 0 <= j < v@.len() ==> decreases_to!(self => v@[j]),
                        i <= v@.len(),
                        strs(values@).no_duplicates(),
                        strs(values@).to_set() == state_names_of(v@.take(i as int)),
                    decreases v@.len() - i,
                {
                    let inner = v[i].get_states();
                    let mut k: usize = 0;
                    let ghost start = strs(values@).to_set();
                    while k < inner.len()
                        invariant
                            k <= inner@.len(),
                            strs(values@).no_duplicates(),
                            strs(values@).to_set() == start + strs(inner@.take(k as int)).to_set(),
                        decreases inner@.len() - k,
                    {
                        push_unique(&mut values, inner[k].clone());
                        proof {
                            assert(strs(inner@.take(k + 1)) =~= strs(inner@.take(k as int)).push(inner@[k as int]@));
                            strs(inner@.take(k as int)).lemma_push_to_set_commute(inner@[k as int]@);
                        }
                        k = k + 1;
                    }
                    proof {
                        assert(inner@.take(k as int) =~= inner@);
                        assert(v@.take(i + 1).drop_last() =~= v@.take(i as int));
                        assert(v@.take(i + 1).last() == v@[i as int]);
                    }
                    i = i + 1;
                }
                proof {
                    assert(v@.take(i as int) =~= v@);
                }
            },
            _ => {
                proof {
                    assert(strs(values@).to_set() =~= Set::<Seq<char>>::empty());
                }
            },
        }
        values
    }
}

/// The state names compared by any of the conditions.
pub open spec fn state_names_of(list: Seq<LogicalExpression>) -> Set<Seq<char>>
    decreases list, 1nat,
{
    if list.len() == 0 {
        Set::empty()
    } else {
        state_names_of(list.drop_last()) + list.last().state_names()
    }
}

} // verus!
