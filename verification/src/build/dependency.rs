//! The scheduling graph of an application: nodes are tasks and the start and
//! end of task groups, and an edge says which node has to run first.

use vstd::prelude::*;
use crate::build::schedule::{total_count, lemma_total_push_empty, lemma_rest_change_one,
    lemma_count_push};
use crate::text::{seq_lt, string_lt, lemma_seq_lt_irreflexive, lemma_seq_lt_asymmetric,
    lemma_seq_lt_transitive, lemma_seq_lt_total};

verus! {

/// A logical connective between two conditions of a task.
#[derive(Debug, Clone, Copy, PartialEq, Eq)]
pub enum LogicalOperator {
    And,
    Or,
}

/// A condition under which a task runs, as written in the application
/// builder: signals, state comparisons, connectives, negation and groups.
#[derive(Debug)]
pub enum LogicalExpression {
    Signal(String),
    State(String, String),
    Operator(LogicalOperator),
    Not(Box<LogicalExpression>),
    Grouped(Vec<LogicalExpression>),
}

/// When a task runs.
#[derive(Debug, Clone, Copy, PartialEq, Eq)]
pub enum TaskType {
    Update,
    Fixed,
    Sync,
    Long,
    Setup,
}

/// A node of the scheduling graph.
#[derive(Debug, Clone)]
pub enum DependencyType {
    GroupStart(String),
    GroupEnd(String),
    Task(String),
}

/// A node as a value: its variant (0 for a group start, 1 for a group end,
/// 2 for a task) and its name.
pub type NodeView = (int, Seq<char>);

impl View for DependencyType {
    type V = NodeView;

    open spec fn view(&self) -> NodeView {
        match self {
            DependencyType::GroupStart(s) => (0, s@),
            DependencyType::GroupEnd(s) => (1, s@),
            DependencyType::Task(s) => (2, s@),
        }
    }
}

/// The order of nodes: by variant (group starts, then group ends, then
/// tasks), then by name.
pub open spec fn node_lt(a: NodeView, b: NodeView) -> bool {
    a.0 < b.0 || (a.0 == b.0 && seq_lt(a.1, b.1))
}

pub proof fn lemma_node_lt_irreflexive(a: NodeView)
    ensures
        !node_lt(a, a),
{
    lemma_seq_lt_irreflexive(a.1);
}

pub proof fn lemma_node_lt_asymmetric(a: NodeView, b: NodeView)
    ensures
        !(node_lt(a, b) && node_lt(b, a)),
{
    lemma_seq_lt_asymmetric(a.1, b.1);
}

pub proof fn lemma_node_lt_transitive(a: NodeView, b: NodeView, c: NodeView)
    requires
        node_lt(a, b),
        node_lt(b, c),
    ensures
        node_lt(a, c),
{
    if a.0 == b.0 && b.0 == c.0 {
        lemma_seq_lt_transitive(a.1, b.1, c.1);
    }
}

pub proof fn lemma_node_lt_total(a: NodeView, b: NodeView)
    requires
        a != b,
    ensures
        node_lt(a, b) || node_lt(b, a),
{
    if a.0 == b.0 {
        assert(a.1 != b.1);
        lemma_seq_lt_total(a.1, b.1);
    }
}

/// `n` is a key of a list of dependents.
pub open spec fn entries_have(deps: Seq<(DependencyType, Vec<DependencyType>)>, n: NodeView) -> bool {
    exists|i: int| 0 <= i < deps.len() && deps[i].0@ == n
}

/// The list of dependents of `n`; empty where `n` is no key.
pub open spec fn entry_list(deps: Seq<(DependencyType, Vec<DependencyType>)>, n: NodeView) -> Seq<NodeView> {
    if entries_have(deps, n) {
        let i = choose|i: int| 0 <= i < deps.len() && deps[i].0@ == n;
        views(deps[i].1@)
    } else {
        Seq::empty()
    }
}

/// `n` is a key of a list of in-degrees.
pub open spec fn degrees_have(degs: Seq<(DependencyType, usize)>, n: NodeView) -> bool {
    exists|i: int| 0 <= i < degs.len() && degs[i].0@ == n
}

/// The in-degree of `n`; 0 where `n` is no key.
pub open spec fn degree_in(degs: Seq<(DependencyType, usize)>, n: NodeView) -> int {
    if degrees_have(degs, n) {
        let i = choose|i: int| 0 <= i < degs.len() && degs[i].0@ == n;
        degs[i].1 as int
    } else {
        0
    }
}

/// No node is a key twice in a list of dependents.
pub open spec fn deps_unique(deps: Seq<(DependencyType, Vec<DependencyType>)>) -> bool {
    forall|i: int, j: int| 0 <= i < deps.len() && 0 <= j < deps.len() && i != j
        ==> deps[i].0@ != deps[j].0@
}

/// No node is a key twice in a list of in-degrees.
pub open spec fn degs_unique(degs: Seq<(DependencyType, usize)>) -> bool {
    forall|i: int, j: int| 0 <= i < degs.len() && 0 <= j < degs.len() && i != j
        ==> degs[i].0@ != degs[j].0@
}

/// Changing the list of one entry changes what the map gives for its key only.
pub proof fn lemma_entry_list_update(
    d0: Seq<(DependencyType, Vec<DependencyType>)>,
    d1: Seq<(DependencyType, Vec<DependencyType>)>,
    i: int,
)
    requires
        deps_unique(d0),
        0 <= i < d0.len(),
        d1.len() == d0.len(),
        forall|j: int| 0 <= j < d0.len() ==> #[trigger] d1[j].0@ == d0[j].0@,
        forall|j: int| 0 <= j < d0.len() && j != i ==> #[trigger] views(d1[j].1@) == views(d0[j].1@),
    ensures
        deps_unique(d1),
        forall|n: NodeView| #[trigger] entries_have(d1, n) == entries_have(d0, n),
        forall|n: NodeView| #[trigger] entry_list(d1, n) == if n == d0[i].0@ {
            views(d1[i].1@)
        } else {
            entry_list(d0, n)
        },
{
    assert forall|j: int, k: int| 0 <= j < d1.len() && 0 <= k < d1.len() && j != k
        implies d1[j].0@ != d1[k].0@ by {
        assert(d1[j].0@ == d0[j].0@);
        assert(d1[k].0@ == d0[k].0@);
    }
    assert forall|n: NodeView| #[trigger] entries_have(d1, n) == entries_have(d0, n) by {
        if entries_have(d0, n) {
            let j = choose|j: int| 0 <= j < d0.len() && d0[j].0@ == n;
            assert(d1[j].0@ == n);
        }
        if entries_have(d1, n) {
            let j = choose|j: int| 0 <= j < d1.len() && d1[j].0@ == n;
            assert(d0[j].0@ == n);
        }
    }
    assert forall|n: NodeView| #[trigger] entry_list(d1, n) == if n == d0[i].0@ {
        views(d1[i].1@)
    } else {
        entry_list(d0, n)
    } by {
        if entries_have(d0, n) {
            let j0 = choose|j: int| 0 <= j < d0.len() && d0[j].0@ == n;
            assert(d1[j0].0@ == n);
            let j1 = choose|j: int| 0 <= j < d1.len() && d1[j].0@ == n;
            assert(d0[j1].0@ == n);
            assert(j0 == j1);
            if n == d0[i].0@ {
                assert(j0 == i);
            }
        } else {
            assert(n != d0[i].0@);
        }
    }
}

/// Changing the in-degree of one key changes what the map gives for it only.
pub proof fn lemma_degree_update(
    d0: Seq<(DependencyType, usize)>,
    d1: Seq<(DependencyType, usize)>,
    i: int,
)
    requires
        degs_unique(d0),
        0 <= i < d0.len(),
        d1.len() == d0.len(),
        forall|j: int| 0 <= j < d0.len() ==> #[trigger] d1[j].0@ == d0[j].0@,
        forall|j: int| 0 <= j < d0.len() && j != i ==> #[trigger] d1[j].1 == d0[j].1,
    ensures
        degs_unique(d1),
        forall|n: NodeView| #[trigger] degrees_have(d1, n) == degrees_have(d0, n),
        forall|n: NodeView| #[trigger] degree_in(d1, n) == if n == d0[i].0@ {
            d1[i].1 as int
        } else {
            degree_in(d0, n)
        },
{
    assert forall|j: int, k: int| 0 <= j < d1.len() && 0 <= k < d1.len() && j != k
        implies d1[j].0@ != d1[k].0@ by {
        assert(d1[j].0@ == d0[j].0@);
        assert(d1[k].0@ == d0[k].0@);
    }
    assert forall|n: NodeView| #[trigger] degrees_have(d1, n) == degrees_have(d0, n) by {
        if degrees_have(d0, n) {
            let j = choose|j: int| 0 <= j < d0.len() && d0[j].0@ == n;
            assert(d1[j].0@ == n);
        }
        if degrees_have(d1, n) {
            let j = choose|j: int| 0 <= j < d1.len() && d1[j].0@ == n;
            assert(d0[j].0@ == n);
        }
    }
    assert forall|n: NodeView| #[trigger] degree_in(d1, n) == if n == d0[i].0@ {
        d1[i].1 as int
    } else {
        degree_in(d0, n)
    } by {
        if degrees_have(d0, n) {
            let j0 = choose|j: int| 0 <= j < d0.len() && d0[j].0@ == n;
            assert(d1[j0].0@ == n);
            let j1 = choose|j: int| 0 <= j < d1.len() && d1[j].0@ == n;
            assert(d0[j1].0@ == n);
            assert(j0 == j1);
            if n == d0[i].0@ {
                assert(j0 == i);
            }
        } else {
            assert(n != d0[i].0@);
        }
    }
}

/// The views of a sequence of nodes.
pub open spec fn views(s: Seq<DependencyType>) -> Seq<NodeView> {
    s.map_values(|d: DependencyType| d@)
}

/// How often `n` occurs in `s`.
pub open spec fn count_in(s: Seq<NodeView>, n: NodeView) -> int
    decreases s.len(),
{
    if s.len() == 0 {
        0
    } else {
        count_in(s.drop_last(), n) + if s.last() == n {
            1int
        } else {
            0int
        }
    }
}

impl DependencyType {
    /// The name of the task or group.
    pub fn name(&self) -> (r: &String)
        ensures
            r@ == self@.1,
    {
        match self {
            DependencyType::GroupStart(s) => s,
            DependencyType::GroupEnd(s) => s,
            DependencyType::Task(s) => s,
        }
    }

    /// A copy of this node.
    pub fn duplicate(&self) -> (r: DependencyType)
        ensures
            r@ == self@,
    {
        match self {
            DependencyType::GroupStart(s) => DependencyType::GroupStart(s.clone()),
            DependencyType::GroupEnd(s) => DependencyType::GroupEnd(s.clone()),
            DependencyType::Task(s) => DependencyType::Task(s.clone()),
        }
    }

    fn tag(&self) -> (r: u8)
        ensures
            r as int == self@.0,
    {
        match self {
            DependencyType::GroupStart(_) => 0,
            DependencyType::GroupEnd(_) => 1,
            DependencyType::Task(_) => 2,
        }
    }

    /// Whether the two nodes are the same node.
    pub fn same_as(&self, other: &DependencyType) -> (r: bool)
        ensures
            r == (self@ == other@),
    {
        self.tag() == other.tag() && *self.name() == *other.name()
    }

    /// Whether this node comes before `other` in the order of nodes.
    pub fn precedes(&self, other: &DependencyType) -> (r: bool)
        ensures
            r == node_lt(self@, other@),
    {
        let a = self.tag();
        let b = other.tag();
        if a < b {
            true
        } else if a == b {
            string_lt(self.name(), other.name())
        } else {
            false
        }
    }
}

/// The scheduling graph. `dependents` maps a node to the nodes that wait for
/// it, `in_degrees` maps each node to the number of nodes it waits for.
/// Each node is a key of each list at most once (see `wf`).
#[derive(Debug, Clone)]
pub struct DependencyGraph {
    pub dependents: Vec<(DependencyType, Vec<DependencyType>)>,
    pub in_degrees: Vec<(DependencyType, usize)>,
}

impl DependencyGraph {
    /// No node is a key twice, in either list.
    pub open spec fn wf(self) -> bool {
        &&& deps_unique(self.dependents@)
        &&& degs_unique(self.in_degrees@)
    }

    /// `n` is a node of the graph (it has an in-degree).
    pub open spec fn has_node(self, n: NodeView) -> bool {
        degrees_have(self.in_degrees@, n)
    }

    /// `n` has a list of dependents.
    pub open spec fn has_entry(self, n: NodeView) -> bool {
        entries_have(self.dependents@, n)
    }

    /// The nodes that wait for `n`, in the order they were added.
    pub open spec fn dependents_of(self, n: NodeView) -> Seq<NodeView> {
        entry_list(self.dependents@, n)
    }

    /// The in-degree of `n`; 0 for a node without one.
    pub open spec fn degree(self, n: NodeView) -> int {
        degree_in(self.in_degrees@, n)
    }

    pub proof fn lemma_entry_at(self, i: int)
        requires
            self.wf(),
            0 <= i < self.dependents@.len(),
        ensures
            self.has_entry(self.dependents@[i].0@),
            self.dependents_of(self.dependents@[i].0@) == views(self.dependents@[i].1@),
    {
        let n = self.dependents@[i].0@;
        assert(self.has_entry(n));
        let j = choose|j: int| 0 <= j < self.dependents@.len() && self.dependents@[j].0@ == n;
        assert(i == j);
    }

    pub proof fn lemma_degree_at(self, i: int)
        requires
            self.wf(),
            0 <= i < self.in_degrees@.len(),
        ensures
            self.has_node(self.in_degrees@[i].0@),
            self.degree(self.in_degrees@[i].0@) == self.in_degrees@[i].1 as int,
    {
        let n = self.in_degrees@[i].0@;
        assert(self.has_node(n));
        let j = choose|j: int| 0 <= j < self.in_degrees@.len() && self.in_degrees@[j].0@ == n;
        assert(i == j);
    }

    /// The position of `n`'s list of dependents.
    pub(crate) fn find_entry(&self, n: &DependencyType) -> (r: Option<usize>)
        ensures
            match r {
                Some(i) => i < self.dependents@.len() && self.dependents@[i as int].0@ == n@,
                None => !self.has_entry(n@),
            },
    {
        let mut i: usize = 0;
        while i < self.dependents.len()
            invariant
                i <= self.dependents@.len(),
                forall|j: int| 0 <= j < i ==> self.dependents@[j].0@ != n@,
            decreases self.dependents@.len() - i,
        {
            if self.dependents[i].0.same_as(n) {
                return Some(i);
            }
            i = i + 1;
        }
        None
    }

    /// The position of `n`'s in-degree.
    fn find_degree(&self, n: &DependencyType) -> (r: Option<usize>)
        ensures
            match r {
                Some(i) => i < self.in_degrees@.len() && self.in_degrees@[i as int].0@ == n@,
                None => !self.has_node(n@),
            },
    {
        find_degree_in(&self.in_degrees, n)
    }

    /// The position of `n`'s list of dependents, which it has.
    pub(crate) fn entry_index(&self, n: &DependencyType) -> (i: usize)
        requires
            self.has_entry(n@),
        ensures
            i < self.dependents@.len(),
            self.dependents@[i as int].0@ == n@,
    {
        match self.find_entry(n) {
            Some(i) => i,
            None => {
                proof {
                    assert(false);
                }
                0
            },
        }
    }

    /// The position of `n`'s in-degree, which it has.
    fn degree_index(&self, n: &DependencyType) -> (i: usize)
        requires
            self.has_node(n@),
        ensures
            i < self.in_degrees@.len(),
            self.in_degrees@[i as int].0@ == n@,
    {
        match self.find_degree(n) {
            Some(i) => i,
            None => {
                proof {
                    assert(false);
                }
                0
            },
        }
    }

    /// Records that `from` waits for `to`: `from` is appended to the
    /// dependents of `to` and its in-degree goes up by one; both become nodes.
    pub fn add_dependency(&mut self, from: DependencyType, to: DependencyType)
        requires
            old(self).wf(),
            old(self).degree(from@) < usize::MAX,
        ensures
            final(self).wf(),
            forall|n: NodeView| #[trigger]
                final(self).has_node(n) == (old(self).has_node(n) || n == from@ || n == to@),
            forall|n: NodeView| #[trigger]
                final(self).has_entry(n) == (old(self).has_entry(n) || n == to@),
            forall|n: NodeView| #[trigger]
                final(self).dependents_of(n) == if n == to@ {
                    old(self).dependents_of(n).push(from@)
                } else {
                    old(self).dependents_of(n)
                },
            forall|n: NodeView| #[trigger]
                final(self).degree(n) == if n == from@ {
                    old(self).degree(n) + 1
                } else {
                    old(self).degree(n)
                },
            forall|n: NodeView| #[trigger] total_count(final(self).dependents@, n)
                == total_count(old(self).dependents@, n) + if n == from@ { 1int } else { 0int },
            old(self).consistent() ==> final(self).consistent(),
    {
        let ghost g0 = *self;
        self.ensure_entry(&to);
        let ghost g1 = *self;
        let i = self.entry_index(&to);
        proof {
            g1.lemma_entry_at(i as int);
        }
        self.dependents[i].1.push(from.duplicate());
        proof {
            let g2 = *self;
            assert(views(g2.dependents@[i as int].1@) =~= views(g1.dependents@[i as int].1@).push(from@));
            lemma_entry_list_update(g1.dependents@, g2.dependents@, i as int);
            assert forall|n: NodeView| #[trigger] total_count(g2.dependents@, n)
                == total_count(g1.dependents@, n) + if n == from@ { 1int } else { 0int } by {
                lemma_rest_change_one(g1.dependents@, g2.dependents@, i as int, n, g1.dependents@.len() as int);
                lemma_count_push(views(g1.dependents@[i as int].1@), from@, n);
            }
        }
        let ghost g3 = *self;
        self.ensure_degree(from.duplicate());
        let ghost g4 = *self;
        let j = self.degree_index(&from);
        proof {
            g4.lemma_degree_at(j as int);
        }
        self.in_degrees[j].1 = self.in_degrees[j].1 + 1;
        proof {
            lemma_degree_update(g4.in_degrees@, self.in_degrees@, j as int);
        }
        let ghost g5 = *self;
        self.ensure_degree(to);
        proof {
            let g6 = *self;
            assert forall|n: NodeView| #[trigger]
                g6.has_node(n) == (g0.has_node(n) || n == from@ || n == to@) by {
                assert(g1.has_node(n) == g0.has_node(n));
                assert(g3.has_node(n) == g1.has_node(n));
                assert(g4.has_node(n) == (g3.has_node(n) || n == from@));
                assert(g5.has_node(n) == g4.has_node(n));
                assert(g6.has_node(n) == (g5.has_node(n) || n == to@));
            }
            assert forall|n: NodeView| #[trigger]
                g6.has_entry(n) == (g0.has_entry(n) || n == to@) by {
                assert(g1.has_entry(n) == (g0.has_entry(n) || n == to@));
                assert(g3.has_entry(n) == g1.has_entry(n));
                assert(g4.has_entry(n) == g3.has_entry(n));
                assert(g5.has_entry(n) == g4.has_entry(n));
                assert(g6.has_entry(n) == g5.has_entry(n));
            }
            assert forall|n: NodeView| #[trigger] g6.dependents_of(n) == if n == to@ {
                g0.dependents_of(n).push(from@)
            } else {
                g0.dependents_of(n)
            } by {
                assert(g1.dependents_of(n) == g0.dependents_of(n));
                assert(g3.dependents_of(n) == if n == to@ {
                    g1.dependents_of(n).push(from@)
                } else {
                    g1.dependents_of(n)
                });
                assert(g4.dependents_of(n) == g3.dependents_of(n));
                assert(g5.dependents_of(n) == g4.dependents_of(n));
                assert(g6.dependents_of(n) == g5.dependents_of(n));
            }
            assert forall|n: NodeView| #[trigger] g6.degree(n) == if n == from@ {
                g0.degree(n) + 1
            } else {
                g0.degree(n)
            } by {
                assert(g1.degree(n) == g0.degree(n));
                assert(g3.degree(n) == g1.degree(n));
                assert(g4.degree(n) == g3.degree(n));
                assert(g5.degree(n) == if n == from@ {
                    g4.degree(n) + 1
                } else {
                    g4.degree(n)
                });
                assert(g6.degree(n) == g5.degree(n));
            }
            assert forall|n: NodeView| #[trigger] total_count(g6.dependents@, n)
                == total_count(g0.dependents@, n) + if n == from@ { 1int } else { 0int } by {
                assert(total_count(g1.dependents@, n) == total_count(g0.dependents@, n));
            }
            if g0.consistent() {
                assert forall|n: NodeView| g6.has_node(n) implies #[trigger] total_count(g6.dependents@, n)
                    == g6.degree(n) by {
                    if !g0.has_node(n) {
                        assert(!(total_count(g0.dependents@, n) > 0));
                        crate::build::schedule::lemma_total_nonneg(g0.dependents@, n);
                    }
                }
                assert forall|n: NodeView| #[trigger] total_count(g6.dependents@, n) > 0 implies g6.has_node(n) by {
                    if n != from@ {
                        assert(total_count(g0.dependents@, n) > 0);
                    }
                }
            }
        }
    }

    /// An empty graph.
    pub fn new() -> (g: DependencyGraph)
        ensures
            g.wf(),
            g.dependents@.len() == 0,
            g.in_degrees@.len() == 0,
    {
        DependencyGraph { dependents: Vec::new(), in_degrees: Vec::new() }
    }

    /// Makes `node` a node of the graph, with no dependents and in-degree 0
    /// unless it already has them.
    pub fn add_node(&mut self, node: DependencyType)
        requires
            old(self).wf(),
        ensures
            final(self).wf(),
            forall|n: NodeView| #[trigger]
                final(self).has_node(n) == (old(self).has_node(n) || n == node@),
            forall|n: NodeView| #[trigger]
                final(self).has_entry(n) == (old(self).has_entry(n) || n == node@),
            forall|n: NodeView| #[trigger]
                final(self).dependents_of(n) == old(self).dependents_of(n),
            forall|n: NodeView| #[trigger] final(self).degree(n) == old(self).degree(n),
            forall|n: NodeView| #[trigger] total_count(final(self).dependents@, n)
                == total_count(old(self).dependents@, n),
            old(self).consistent() ==> final(self).consistent(),
    {
        let ghost g0 = *self;
        self.ensure_entry(&node);
        self.ensure_degree(node);
        proof {
            if g0.consistent() {
                let g = *self;
                assert forall|n: NodeView| g.has_node(n) implies #[trigger] total_count(g.dependents@, n)
                    == g.degree(n) by {
                    if !g0.has_node(n) {
                        crate::build::schedule::lemma_total_nonneg(g0.dependents@, n);
                    }
                }
            }
        }
    }

    /// Gives `node` an empty list of dependents unless it has one.
    fn ensure_entry(&mut self, node: &DependencyType)
        requires
            old(self).wf(),
        ensures
            final(self).wf(),
            final(self).in_degrees == old(self).in_degrees,
            final(self).has_entry(node@),
            forall|n: NodeView| #[trigger]
                final(self).has_entry(n) == (old(self).has_entry(n) || n == node@),
            forall|n: NodeView| #[trigger]
                final(self).dependents_of(n) == old(self).dependents_of(n),
            forall|n: NodeView| #[trigger] final(self).has_node(n) == old(self).has_node(n),
            forall|n: NodeView| #[trigger] final(self).degree(n) == old(self).degree(n),
            final(self).dependents@.len() <= old(self).dependents@.len() + 1,
            forall|i: int| 0 <= i < old(self).dependents@.len() ==>
                #[trigger] final(self).dependents@[i] == old(self).dependents@[i],
            forall|n: NodeView| #[trigger] total_count(final(self).dependents@, n)
                == total_count(old(self).dependents@, n),
    {
        let ghost g0 = *self;
        match self.find_entry(node) {
            Some(_) => {},
            None => {
                self.dependents.push((node.duplicate(), Vec::new()));
                proof {
                    let g1 = *self;
                    let k = g0.dependents@.len() as int;
                    assert(g1.dependents@[k].0@ == node@);
                    assert(g1.in_degrees == g0.in_degrees);
                    assert forall|i: int, j: int|
                        0 <= i < g1.in_degrees@.len() && 0 <= j < g1.in_degrees@.len() && i != j
                        implies g1.in_degrees@[i].0@ != g1.in_degrees@[j].0@ by {
                        assert(g1.in_degrees@[i].0@ == g0.in_degrees@[i].0@);
                        assert(g1.in_degrees@[j].0@ == g0.in_degrees@[j].0@);
                    }
                    assert forall|i: int, j: int|
                        0 <= i < g1.dependents@.len() && 0 <= j < g1.dependents@.len() && i != j
                        implies g1.dependents@[i].0@ != g1.dependents@[j].0@ by {
                        if i == k {
                            assert(g1.dependents@[j].0@ == g0.dependents@[j].0@);
                        } else if j == k {
                            assert(g1.dependents@[i].0@ == g0.dependents@[i].0@);
                        } else {
                            assert(g1.dependents@[i].0@ == g0.dependents@[i].0@);
                            assert(g1.dependents@[j].0@ == g0.dependents@[j].0@);
                        }
                    }
                    assert forall|n: NodeView| #[trigger]
                        g1.has_entry(n) == (g0.has_entry(n) || n == node@) by {
                        if g0.has_entry(n) {
                            let i = choose|i: int| 0 <= i < g0.dependents@.len() && g0.dependents@[i].0@ == n;
                            assert(g1.dependents@[i].0@ == n);
                        }
                        if g1.has_entry(n) && n != node@ {
                            let i = choose|i: int| 0 <= i < g1.dependents@.len() && g1.dependents@[i].0@ == n;
                            assert(g0.dependents@[i].0@ == n);
                        }
                    }
                    assert forall|n: NodeView| #[trigger] g1.dependents_of(n) == g0.dependents_of(n) by {
                        if g0.has_entry(n) {
                            let i = choose|i: int| 0 <= i < g0.dependents@.len() && g0.dependents@[i].0@ == n;
                            g0.lemma_entry_at(i);
                            g1.lemma_entry_at(i);
                        } else if n == node@ {
                            g1.lemma_entry_at(k);
                            assert(views(g1.dependents@[k].1@) =~= Seq::empty());
                        }
                    }
                    assert(g1.dependents@ == g0.dependents@.push(g1.dependents@[k]));
                    assert forall|n: NodeView| #[trigger] total_count(g1.dependents@, n)
                        == total_count(g0.dependents@, n) by {
                        lemma_total_push_empty(g0.dependents@, g1.dependents@[k], n);
                    }
                }
            },
        }
    }

    /// Gives `node` the in-degree 0 unless it has one.
    fn ensure_degree(&mut self, node: DependencyType)
        requires
            old(self).wf(),
        ensures
            final(self).wf(),
            final(self).dependents == old(self).dependents,
            final(self).has_node(node@),
            forall|n: NodeView| #[trigger]
                final(self).has_node(n) == (old(self).has_node(n) || n == node@),
            forall|n: NodeView| #[trigger] final(self).degree(n) == old(self).degree(n),
            forall|n: NodeView| #[trigger] final(self).has_entry(n) == old(self).has_entry(n),
            forall|n: NodeView| #[trigger]
                final(self).dependents_of(n) == old(self).dependents_of(n),
            forall|i: int| 0 <= i < old(self).in_degrees@.len() ==>
                #[trigger] final(self).in_degrees@[i] == old(self).in_degrees@[i],
            final(self).in_degrees@.len() <= old(self).in_degrees@.len() + 1,
    {
        let ghost g0 = *self;
        match self.find_degree(&node) {
            Some(_) => {},
            None => {
                self.in_degrees.push((node, 0));
                proof {
                    let g1 = *self;
                    let k = g0.in_degrees@.len() as int;
                    assert(g1.in_degrees@[k].0@ == node@);
                    assert(g1.dependents == g0.dependents);
                    assert forall|i: int, j: int|
                        0 <= i < g1.dependents@.len() && 0 <= j < g1.dependents@.len() && i != j
                        implies g1.dependents@[i].0@ != g1.dependents@[j].0@ by {
                        assert(g1.dependents@[i].0@ == g0.dependents@[i].0@);
                        assert(g1.dependents@[j].0@ == g0.dependents@[j].0@);
                    }
                    assert forall|i: int, j: int|
                        0 <= i < g1.in_degrees@.len() && 0 <= j < g1.in_degrees@.len() && i != j
                        implies g1.in_degrees@[i].0@ != g1.in_degrees@[j].0@ by {
                        if i == k {
                            assert(g1.in_degrees@[j].0@ == g0.in_degrees@[j].0@);
                        } else if j == k {
                            assert(g1.in_degrees@[i].0@ == g0.in_degrees@[i].0@);
                        } else {
                            assert(g1.in_degrees@[i].0@ == g0.in_degrees@[i].0@);
                            assert(g1.in_degrees@[j].0@ == g0.in_degrees@[j].0@);
                        }
                    }
                    assert forall|n: NodeView| #[trigger]
                        g1.has_node(n) == (g0.has_node(n) || n == node@) by {
                        if g0.has_node(n) {
                            let i = choose|i: int| 0 <= i < g0.in_degrees@.len() && g0.in_degrees@[i].0@ == n;
                            assert(g1.in_degrees@[i].0@ == n);
                        }
                        if g1.has_node(n) && n != node@ {
                            let i = choose|i: int| 0 <= i < g1.in_degrees@.len() && g1.in_degrees@[i].0@ == n;
                            assert(g0.in_degrees@[i].0@ == n);
                        }
                    }
                    assert forall|n: NodeView| #[trigger] g1.degree(n) == g0.degree(n) by {
                        if g0.has_node(n) {
                            let i = choose|i: int| 0 <= i < g0.in_degrees@.len() && g0.in_degrees@[i].0@ == n;
                            g0.lemma_degree_at(i);
                            g1.lemma_degree_at(i);
                        } else if n == node@ {
                            g1.lemma_degree_at(k);
                        }
                    }
                }
            },
        }
    }
}

/// The position of `n` in a list of in-degrees.
pub(crate) fn find_degree_in(list: &Vec<(DependencyType, usize)>, n: &DependencyType) -> (r: Option<usize>)
    ensures
        match r {
            Some(i) => i < list@.len() && list@[i as int].0@ == n@,
            None => forall|i: int| 0 <= i < list@.len() ==> list@[i].0@ != n@,
        },
{
    let mut i: usize = 0;
    while i < list.len()
        invariant
            i <= list@.len(),
            forall|j: int| 0 <= j < i ==> list@[j].0@ != n@,
        decreases list@.len() - i,
    {
        if list[i].0.same_as(n) {
            return Some(i);
        }
        i = i + 1;
    }
    None
}

} // verus!
