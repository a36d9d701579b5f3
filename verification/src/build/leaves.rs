//! The tasks that a node of the scheduling graph stands for: a task stands
//! for itself, a group for the tasks among its dependents, looked up through
//! nested groups.

use vstd::prelude::*;
use crate::build::dependency::{DependencyGraph, DependencyType, NodeView, views};
use crate::text::strs;

verus! {

impl DependencyGraph {
    /// The task names reached from `n` when at most `depth` levels of nested
    /// groups are looked through: for each dependent of `n` in order, a task
    /// gives its name and any other node the task names it reaches. `None`
    /// where `n` or a group on the way has no list of dependents, or the
    /// nesting goes deeper than `depth`.
    pub open spec fn leaves_within(self, n: NodeView, depth: nat) -> Option<Seq<Seq<char>>>
        decreases depth, 1nat, 0nat,
    {
        if depth == 0 || !self.has_entry(n) {
            None
        } else {
            self.leaves_of_list(self.dependents_of(n), depth)
        }
    }

    /// The task names reached from the nodes of `list`, in order.
    pub open spec fn leaves_of_list(self, list: Seq<NodeView>, depth: nat) -> Option<
        Seq<Seq<char>>,
    >
        decreases depth, 0nat, list.len(),
    {
        if list.len() == 0 {
            Some(Seq::empty())
        } else {
            match self.leaves_of_list(list.drop_last(), depth) {
                None => None,
                Some(front) => {
                    let d = list.last();
                    if d.0 == 2 {
                        Some(front.push(d.1))
                    } else if depth == 0 {
                        None
                    } else {
                        match self.leaves_within(d, (depth - 1) as nat) {
                            Some(sub) => Some(front + sub),
                            None => None,
                        }
                    }
                },
            }
        }
    }

    /// Looking deeper never changes a result that was found.
    pub proof fn lemma_leaves_depth_mono(self, n: NodeView, depth: nat)
        requires
            self.leaves_within(n, depth) is Some,
        ensures
            self.leaves_within(n, depth + 1) == self.leaves_within(n, depth),
        decreases depth, 1nat, 0nat,
    {
        self.lemma_leaves_of_list_depth_mono(self.dependents_of(n), depth);
    }

    pub proof fn lemma_leaves_of_list_depth_mono(self, list: Seq<NodeView>, depth: nat)
        requires
            self.leaves_of_list(list, depth) is Some,
        ensures
            self.leaves_of_list(list, depth + 1) == self.leaves_of_list(list, depth),
        decreases depth, 0nat, list.len(),
    {
        if list.len() > 0 {
            self.lemma_leaves_of_list_depth_mono(list.drop_last(), depth);
            let d = list.last();
            if d.0 != 2 && depth > 0 {
                self.lemma_leaves_depth_mono(d, (depth - 1) as nat);
            }
        }
    }

    proof fn lemma_leaves_prefix(self, list: Seq<NodeView>, depth: nat, j: int)
        requires
            self.leaves_of_list(list, depth) is Some,
            0 <= j <= list.len(),
        ensures
            self.leaves_of_list(list.take(j), depth) is Some,
        decreases list.len() - j,
    {
        if j < list.len() {
            assert(list.take(j + 1).drop_last() =~= list.take(j));
            self.lemma_leaves_prefix(list, depth, j + 1);
        } else {
            assert(list.take(j) =~= list);
        }
    }

    fn leaves_rec(&self, node: &DependencyType, depth: Ghost<nat>) -> (r: Vec<String>)
        requires
            self.wf(),
            self.leaves_within(node@, depth@) is Some,
        ensures
            Some(strs(r@)) == self.leaves_within(node@, depth@),
        decreases depth@,
    {
        let e = self.entry_index(node);
        proof {
            self.lemma_entry_at(e as int);
        }
        let list = &self.dependents[e].1;
        let ghost lv = views(list@);
        let mut out: Vec<String> = Vec::new();
        let mut j: usize = 0;
        proof {
            assert(lv.take(0) =~= Seq::<NodeView>::empty());
            assert(strs(out@) =~= Seq::<Seq<char>>::empty());
        }
        while j < list.len()
            invariant
                self.wf(),
                e < self.dependents@.len(),
                list@ == self.dependents@[e as int].1@,
                lv == views(list@),
                lv == self.dependents_of(node@),
                self.leaves_of_list(lv, depth@) is Some,
                depth@ > 0,
                j <= list@.len(),
                Some(strs(out@)) == self.leaves_of_list(lv.take(j as int), depth@),
            decreases list@.len() - j,
        {
            let ghost before = out@;
            proof {
                self.lemma_leaves_prefix(lv, depth@, j + 1);
                assert(lv.take(j + 1).drop_last() =~= lv.take(j as int));
                assert(lv.take(j + 1).last() == list@[j as int]@);
            }
            match &list[j] {
                DependencyType::Task(s) => {
                    out.push(s.clone());
                    proof {
                        assert(strs(out@) =~= strs(before).push(s@));
                    }
                },
                other => {
                    let mut sub = self.leaves_rec(other, Ghost((depth@ - 1) as nat));
                    let ghost subv = sub@;
                    out.append(&mut sub);
                    proof {
                        assert(strs(out@) =~= strs(before) + strs(subv));
                    }
                },
            }
            j = j + 1;
        }
        proof {
            assert(lv.take(j as int) =~= lv);
        }
        out
    }

    /// The names of the tasks that `node` stands for, in order: the tasks
    /// among its dependents, and for each other dependent the tasks it
    /// stands for in turn.
    pub fn get_task_leaves(&self, node: &DependencyType) -> (r: Vec<String>)
        requires
            self.wf(),
            exists|d: nat| #[trigger] self.leaves_within(node@, d) is Some,
        ensures
            exists|d: nat| #[trigger] self.leaves_within(node@, d) == Some(strs(r@)),
    {
        let ghost d = choose|d: nat| #[trigger] self.leaves_within(node@, d) is Some;
        self.leaves_rec(node, Ghost(d))
    }
}

} // verus!
