//! Choices the engine's generated code rests on: which members of an
//! archetype are references that expire when their entity is removed, and
//! where each component of a task's output goes in its archetype.

use vstd::prelude::*;
use crate::build::archetypes::first_pos;
use crate::build::package::{has_prefix, starts_with_text};
use crate::text::{strs, sort_strings, sorted_strs, contains_string};

verus! {

broadcast use vstd::seq_lib::group_to_multiset_ensures;

/// A member that refers to another entity: a `Ref`, a `LockedRef` or a
/// `Member`.
pub open spec fn expires(m: Seq<char>) -> bool {
    has_prefix(m, "Ref<"@) || has_prefix(m, "LockedRef<"@) || has_prefix(m, "Member<"@)
}

/// The positions among the first `k` members of the members that expire.
pub open spec fn expiring_upto(ms: Seq<Seq<char>>, k: int) -> Seq<int>
    decreases k,
{
    if k <= 0 {
        Seq::empty()
    } else if expires(ms[k - 1]) {
        expiring_upto(ms, k - 1).push(k - 1)
    } else {
        expiring_upto(ms, k - 1)
    }
}

/// The positions of an archetype's members that expire when their entity
/// is removed, in order.
pub fn expiring_members(members: &Vec<String>) -> (r: Vec<usize>)
    ensures
        r@.map_values(|x: usize| x as int) == expiring_upto(strs(members@), members@.len() as int),
{
    let mut r: Vec<usize> = Vec::new();
    let mut i: usize = 0;
    while i < members.len()
        invariant
            i <= members@.len(),
            r@.map_values(|x: usize| x as int) == expiring_upto(strs(members@), i as int),
        decreases members@.len() - i,
    {
        let m = members[i].as_str();
        if starts_with_text(m, "Ref<") || starts_with_text(m, "LockedRef<") || starts_with_text(m, "Member<") {
            let ghost before = r@;
            r.push(i);
            assert(r@.map_values(|x: usize| x as int) =~= before.map_values(|x: usize| x as int).push(i as int));
        }
        i = i + 1;
    }
    r
}

/// Where each component of an output goes: for the components in order,
/// the position in `v` of the first occurrence of each.
pub fn output_positions(v: &Vec<String>) -> (r: Vec<usize>)
    ensures
        r@.len() == v@.len(),
        forall|k: int| 0 <= k < r@.len() ==> r@[k] as int == first_pos(strs(v@), #[trigger] sorted_strs(strs(v@))[k]),
{
    let sorted = sort_strings(v);
    let ghost sv = sorted_strs(strs(v@));
    let mut r: Vec<usize> = Vec::new();
    let mut k: usize = 0;
    proof {
        assert(strs(sorted@).len() == sorted@.len());
        assert(sv.to_multiset().len() == sv.len());
        assert(strs(v@).to_multiset().len() == strs(v@).len());
    }
    while k < sorted.len()
        invariant
            k <= sorted@.len(),
            strs(sorted@) == sv,
            sv.to_multiset() == strs(v@).to_multiset(),
            r@.len() == k,
            forall|m: int| 0 <= m < k ==> r@[m] as int == first_pos(strs(v@), #[trigger] sv[m]),
        decreases sorted@.len() - k,
    {
        let x = &sorted[k];
        proof {
            assert(sv[k as int] == x@);
            assert(sv.to_multiset().count(x@) > 0);
            assert(strs(v@).contains(x@));
        }
        let mut i: usize = 0;
        while i < v.len() && v[i] != *x
            invariant
                i <= v@.len(),
                strs(v@).contains(x@),
                forall|j: int| 0 <= j < i ==> strs(v@)[j] != x@,
            decreases v@.len() - i,
        {
            i = i + 1;
        }
        proof {
            if i == v@.len() {
                let j = choose|j: int| 0 <= j < strs(v@).len() && strs(v@)[j] == x@;
                assert(false);
            }
            assert(strs(v@)[i as int] == x@);
            crate::build::archetypes::lemma_first_pos(strs(v@), x@, i as int);
        }
        r.push(i);
        k = k + 1;
    }
    r
}

} // verus!
