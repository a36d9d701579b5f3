//! Checks on a scheduling graph that came from elsewhere (read back from a
//! file, say), so that what the graph operations ask of it can be tested
//! before they are called.

use vstd::prelude::*;
use crate::build::dependency::{DependencyGraph, DependencyType, NodeView, count_in, views};
use crate::build::schedule::{rest_upto, rest_count, lemma_count_take_step, lemma_count_take_le, lemma_rest_nonneg};
use crate::text::strs;

verus! {

/// Counting over one more entry adds what that entry holds.
proof fn lemma_rest_upto_le(deps: Seq<(DependencyType, Vec<DependencyType>)>, n: NodeView, k: int)
    requires
        0 <= k <= deps.len(),
    ensures
        rest_upto(deps, Seq::empty(), n, k) <= rest_count(deps, Seq::empty(), n),
    decreases deps.len() - k,
{
    if k < deps.len() {
        lemma_rest_upto_le(deps, n, k + 1);
        crate::build::schedule::lemma_count_nonneg(views(deps[k].1@), n);
        assert(!Seq::<NodeView>::empty().contains(deps[k].0@));
    }
}

impl DependencyGraph {
    /// Whether no node is a key twice, in either list.
    pub fn is_well_formed(&self) -> (r: bool)
        ensures
            r == self.wf(),
    {
        let n = self.dependents.len();
        let mut i: usize = 0;
        while i < n
            invariant
                n == self.dependents@.len(),
                i <= n,
                forall|a: int, b: int| 0 <= a < i && 0 <= b < n && a != b
                    ==> self.dependents@[a].0@ != self.dependents@[b].0@,
            decreases n - i,
        {
            let mut j: usize = 0;
            while j < n
                invariant
                    n == self.dependents@.len(),
                    i < n,
                    j <= n,
                    forall|b: int| 0 <= b < j && b != i ==> self.dependents@[i as int].0@ != self.dependents@[b].0@,
                decreases n - j,
            {
                if j != i && self.dependents[i].0.same_as(&self.dependents[j].0) {
                    return false;
                }
                j = j + 1;
            }
            i = i + 1;
        }
        let m = self.in_degrees.len();
        let mut i: usize = 0;
        while i < m
            invariant
                m == self.in_degrees@.len(),
                i <= m,
                forall|a: int, b: int| 0 <= a < n && 0 <= b < n && a != b
                    ==> self.dependents@[a].0@ != self.dependents@[b].0@,
                n == self.dependents@.len(),
                forall|a: int, b: int| 0 <= a < i && 0 <= b < m && a != b
                    ==> self.in_degrees@[a].0@ != self.in_degrees@[b].0@,
            decreases m - i,
        {
            let mut j: usize = 0;
            while j < m
                invariant
                    m == self.in_degrees@.len(),
                    i < m,
                    j <= m,
                    forall|b: int| 0 <= b < j && b != i ==> self.in_degrees@[i as int].0@ != self.in_degrees@[b].0@,
                decreases m - j,
            {
                if j != i && self.in_degrees[i].0.same_as(&self.in_degrees[j].0) {
                    return false;
                }
                j = j + 1;
            }
            i = i + 1;
        }
        true
    }

    /// Whether each node waits for at least as many nodes as list it among
    /// their dependents, as a scheduling run needs.
    pub fn counts_consistent(&self) -> (r: bool)
        requires
            self.wf(),
        ensures
            r == self.counts_within_degrees(),
    {
        let deps = &self.dependents;
        let m = self.in_degrees.len();
        let mut i: usize = 0;
        while i < m
            invariant
                self.wf(),
                deps == &self.dependents,
                m == self.in_degrees@.len(),
                i <= m,
                forall|a: int| 0 <= a < i ==> rest_count(self.dependents@, Seq::empty(), #[trigger] self.in_degrees@[a].0@)
                    <= self.in_degrees@[a].1,
            decreases m - i,
        {
            let node = &self.in_degrees[i].0;
            let degree = self.in_degrees[i].1;
            let ghost nv = node@;
            let mut acc: usize = 0;
            let mut k: usize = 0;
            while k < deps.len()
                invariant
                    self.wf(),
                    i < m,
                    m == self.in_degrees@.len(),
                    degree == self.in_degrees@[i as int].1,
                    nv == self.in_degrees@[i as int].0@,
                    deps == &self.dependents,
                    k <= deps@.len(),
                    nv == node@,
                    acc <= degree,
                    acc as int == rest_upto(deps@, Seq::empty(), nv, k as int),
                decreases deps@.len() - k,
            {
                let list = &deps[k].1;
                let ghost lv = views(list@);
                let mut j: usize = 0;
                while j < list.len()
                    invariant
                        self.wf(),
                        i < m,
                        m == self.in_degrees@.len(),
                        degree == self.in_degrees@[i as int].1,
                        nv == self.in_degrees@[i as int].0@,
                        lv == views(list@),
                        deps == &self.dependents,
                        k < deps@.len(),
                        list@ == deps@[k as int].1@,
                        nv == node@,
                        j <= list@.len(),
                        acc <= degree,
                        acc as int == rest_upto(deps@, Seq::empty(), nv, k as int) + count_in(lv.take(j as int), nv),
                    decreases list@.len() - j,
                {
                    proof {
                        lemma_count_take_step(lv, j as int, nv);
                    }
                    if list[j].same_as(node) {
                        if acc == degree {
                            proof {
                                lemma_count_take_le(lv, j + 1, nv);
                                assert(!Seq::<NodeView>::empty().contains(deps@[k as int].0@));
                                assert(rest_upto(deps@, Seq::empty(), nv, k + 1)
                                    == rest_upto(deps@, Seq::empty(), nv, k as int) + count_in(lv, nv));
                                lemma_rest_upto_le(deps@, nv, k + 1);
                                self.lemma_degree_at(i as int);
                                assert(rest_count(self.dependents@, Seq::empty(), nv) > self.degree(nv));
                            }
                            return false;
                        }
                        acc = acc + 1;
                    }
                    j = j + 1;
                }
                proof {
                    assert(lv.take(j as int) =~= lv);
                    assert(!Seq::<NodeView>::empty().contains(deps@[k as int].0@));
                }
                k = k + 1;
            }
            i = i + 1;
        }
        proof {
            assert forall|n: NodeView| self.has_node(n) implies rest_count(self.dependents@, Seq::empty(), n)
                <= self.degree(n) by {
                let a = choose|a: int| 0 <= a < self.in_degrees@.len() && self.in_degrees@[a].0@ == n;
                self.lemma_degree_at(a);
            }
        }
        true
    }

    fn leaves_fuel(&self, node: &DependencyType, depth: usize) -> (r: Option<Vec<String>>)
        requires
            self.wf(),
        ensures
            match r {
                Some(v) => self.leaves_within(node@, depth as nat) == Some(strs(v@)),
                None => self.leaves_within(node@, depth as nat) is None,
            },
        decreases depth,
    {
        if depth == 0 {
            return None;
        }
        let e = match self.find_entry(node) {
            Some(e) => e,
            None => return None,
        };
        proof {
            self.lemma_entry_at(e as int);
        }
        let list = &self.dependents[e].1;
        let ghost lv = views(list@);
        let mut out: Vec<String> = Vec::new();
        let mut j: usize = 0;
        proof {
            assert(lv.take(0) =~= Seq::<NodeView>::empty());
            assert(strs(out@) =~= Seq::<Seq<char>>::empty());
        }
        while j < list.len()
            invariant
                self.wf(),
                e < self.dependents@.len(),
                list@ == self.dependents@[e as int].1@,
                lv == views(list@),
                lv == self.dependents_of(node@),
                depth > 0,
                j <= list@.len(),
                Some(strs(out@)) == self.leaves_of_list(lv.take(j as int), depth as nat),
            decreases list@.len() - j,
        {
            let ghost before = out@;
            proof {
                assert(lv.take(j + 1).drop_last() =~= lv.take(j as int));
                assert(lv.take(j + 1).last() == list@[j as int]@);
            }
            match &list[j] {
                DependencyType::Task(s) => {
                    out.push(s.clone());
                    proof {
                        assert(strs(out@) =~= strs(before).push(s@));
                    }
                },
                other => {
                    match self.leaves_fuel(other, depth - 1) {
                        Some(mut sub) => {
                            let ghost subv = sub@;
                            out.append(&mut sub);
                            proof {
                                assert(strs(out@) =~= strs(before) + strs(subv));
                            }
                        },
                        None => {
                            proof {
                                self.lemma_list_none_extends(lv, depth as nat, j as int + 1);
                            }
                            return None;
                        },
                    }
                },
            }
            j = j + 1;
        }
        proof {
            assert(lv.take(j as int) =~= lv);
        }
        Some(out)
    }

    /// A list whose prefix reaches no result reaches none.
    proof fn lemma_list_none_extends(self, list: Seq<NodeView>, depth: nat, j: int)
        requires
            0 <= j <= list.len(),
            self.leaves_of_list(list.take(j), depth) is None,
        ensures
            self.leaves_of_list(list, depth) is None,
        decreases list.len() - j,
    {
        if j < list.len() {
            assert(list.take(j + 1).drop_last() =~= list.take(j));
            self.lemma_list_none_extends(list, depth, j + 1);
        } else {
            assert(list.take(j) =~= list);
        }
    }

    /// The task names that `node` stands for, where they are reached
    /// through at most `depth` nodes in turn; none otherwise.
    pub fn get_task_leaves_within(&self, node: &DependencyType, depth: usize) -> (r: Option<Vec<String>>)
        requires
            self.wf(),
        ensures
            match r {
                Some(v) => self.leaves_within(node@, depth as nat) == Some(strs(v@)),
                None => self.leaves_within(node@, depth as nat) is None,
            },
    {
        self.leaves_fuel(node, depth)
    }
}

} // verus!
