//! Ordering the nodes of a scheduling graph so that every node comes after the
//! nodes it waits for. Among the nodes that are free to go next, the greatest
//! in the order of nodes goes first.

use vstd::prelude::*;
use crate::build::dependency::{DependencyGraph, DependencyType, NodeView, count_in, views, node_lt,
    deps_unique, degs_unique, find_degree_in, lemma_node_lt_total, lemma_node_lt_transitive,
    lemma_node_lt_asymmetric, lemma_node_lt_irreflexive};

verus! {

/// `count_in` never goes below zero.
pub proof fn lemma_count_nonneg(s: Seq<NodeView>, n: NodeView)
    ensures
        count_in(s, n) >= 0,
    decreases s.len(),
{
    if s.len() > 0 {
        lemma_count_nonneg(s.drop_last(), n);
    }
}

/// Counting over a prefix one longer adds the next element.
pub proof fn lemma_count_take_step(s: Seq<NodeView>, j: int, n: NodeView)
    requires
        0 <= j < s.len(),
    ensures
        count_in(s.take(j + 1), n) == count_in(s.take(j), n) + if s[j] == n {
            1int
        } else {
            0int
        },
{
    assert(s.take(j + 1).drop_last() =~= s.take(j));
}

/// Counting over a prefix gives no more than counting over the whole.
pub proof fn lemma_count_take_le(s: Seq<NodeView>, j: int, n: NodeView)
    requires
        0 <= j <= s.len(),
    ensures
        count_in(s.take(j), n) <= count_in(s, n),
    decreases s.len() - j,
{
    if j < s.len() {
        lemma_count_take_step(s, j, n);
        lemma_count_take_le(s, j + 1, n);
    } else {
        assert(s.take(j) =~= s);
    }
}

/// Occurrences of `n` in the dependents of the first `k` entries whose keys
/// are not in `placed`.
pub open spec fn rest_upto(
    deps: Seq<(DependencyType, Vec<DependencyType>)>,
    placed: Seq<NodeView>,
    n: NodeView,
    k: int,
) -> int
    decreases k,
{
    if k <= 0 {
        0
    } else {
        rest_upto(deps, placed, n, k - 1) + if placed.contains(deps[k - 1].0@) {
            0
        } else {
            count_in(views(deps[k - 1].1@), n)
        }
    }
}

/// Occurrences of `n` in the dependents of the nodes not in `placed`.
pub open spec fn rest_count(
    deps: Seq<(DependencyType, Vec<DependencyType>)>,
    placed: Seq<NodeView>,
    n: NodeView,
) -> int {
    rest_upto(deps, placed, n, deps.len() as int)
}

pub proof fn lemma_rest_nonneg(
    deps: Seq<(DependencyType, Vec<DependencyType>)>,
    placed: Seq<NodeView>,
    n: NodeView,
    k: int,
)
    ensures
        rest_upto(deps, placed, n, k) >= 0,
    decreases k,
{
    if k > 0 {
        lemma_rest_nonneg(deps, placed, n, k - 1);
        lemma_count_nonneg(views(deps[k - 1].1@), n);
    }
}

/// An entry whose key is not placed is part of what is left.
proof fn lemma_rest_ge_entry(
    deps: Seq<(DependencyType, Vec<DependencyType>)>,
    placed: Seq<NodeView>,
    n: NodeView,
    k: int,
    e: int,
)
    requires
        0 <= e < k <= deps.len(),
        !placed.contains(deps[e].0@),
    ensures
        rest_upto(deps, placed, n, k) >= count_in(views(deps[e].1@), n),
    decreases k,
{
    if e == k - 1 {
        lemma_rest_nonneg(deps, placed, n, k - 1);
    } else {
        lemma_rest_ge_entry(deps, placed, n, k - 1, e);
        lemma_count_nonneg(views(deps[k - 1].1@), n);
    }
}

/// Placing `p` takes its own dependents, if it has an entry, out of what is
/// left.
proof fn lemma_rest_place(
    deps: Seq<(DependencyType, Vec<DependencyType>)>,
    placed: Seq<NodeView>,
    p: NodeView,
    n: NodeView,
    k: int,
)
    requires
        deps_unique(deps),
        !placed.contains(p),
        0 <= k <= deps.len(),
    ensures
        forall|e: int| 0 <= e < k && deps[e].0@ == p ==> rest_upto(deps, placed.push(p), n, k)
            == rest_upto(deps, placed, n, k) - count_in(views(deps[e].1@), n),
        (forall|e: int| 0 <= e < k ==> deps[e].0@ != p) ==> rest_upto(deps, placed.push(p), n, k)
            == rest_upto(deps, placed, n, k),
    decreases k,
{
    if k > 0 {
        lemma_rest_place(deps, placed, p, n, k - 1);
        let key = deps[k - 1].0@;
        assert(placed.push(p).contains(key) == (placed.contains(key) || key == p)) by {
            if placed.push(p).contains(key) && key != p {
                let i = choose|i: int| 0 <= i < placed.push(p).len() && placed.push(p)[i] == key;
                assert(placed[i] == key);
            }
            if placed.contains(key) {
                let i = choose|i: int| 0 <= i < placed.len() && placed[i] == key;
                assert(placed.push(p)[i] == key);
            }
            if key == p {
                assert(placed.push(p)[placed.len() as int] == key);
            }
        }
    }
}

/// How often `n` occurs among all lists of dependents.
pub open spec fn total_count(deps: Seq<(DependencyType, Vec<DependencyType>)>, n: NodeView) -> int {
    rest_count(deps, Seq::empty(), n)
}

/// What is left depends only on the entries counted.
pub proof fn lemma_rest_same_prefix(
    d0: Seq<(DependencyType, Vec<DependencyType>)>,
    d1: Seq<(DependencyType, Vec<DependencyType>)>,
    placed: Seq<NodeView>,
    n: NodeView,
    k: int,
)
    requires
        0 <= k <= d0.len(),
        k <= d1.len(),
        forall|i: int| 0 <= i < k ==> #[trigger] d0[i].0@ == d1[i].0@ && views(d0[i].1@) == views(d1[i].1@),
    ensures
        rest_upto(d0, placed, n, k) == rest_upto(d1, placed, n, k),
    decreases k,
{
    if k > 0 {
        lemma_rest_same_prefix(d0, d1, placed, n, k - 1);
        assert(d0[k - 1].0@ == d1[k - 1].0@);
    }
}

/// Changing one list of dependents changes the counts by the difference.
pub proof fn lemma_rest_change_one(
    d0: Seq<(DependencyType, Vec<DependencyType>)>,
    d1: Seq<(DependencyType, Vec<DependencyType>)>,
    e: int,
    n: NodeView,
    k: int,
)
    requires
        d0.len() == d1.len(),
        0 <= e < d0.len(),
        0 <= k <= d0.len(),
        forall|i: int| 0 <= i < d0.len() ==> #[trigger] d0[i].0@ == d1[i].0@,
        forall|i: int| 0 <= i < d0.len() && i != e ==> #[trigger] views(d0[i].1@) == views(d1[i].1@),
    ensures
        rest_upto(d1, Seq::empty(), n, k) == rest_upto(d0, Seq::empty(), n, k) + if e < k {
            count_in(views(d1[e].1@), n) - count_in(views(d0[e].1@), n)
        } else {
            0
        },
    decreases k,
{
    if k > 0 {
        lemma_rest_change_one(d0, d1, e, n, k - 1);
        assert(d0[k - 1].0@ == d1[k - 1].0@);
        assert(!Seq::<NodeView>::empty().contains(d0[k - 1].0@));
        if k - 1 != e {
            assert(views(d0[k - 1].1@) == views(d1[k - 1].1@));
        }
    }
}

pub proof fn lemma_total_nonneg(deps: Seq<(DependencyType, Vec<DependencyType>)>, n: NodeView)
    ensures
        total_count(deps, n) >= 0,
{
    lemma_rest_nonneg(deps, Seq::empty(), n, deps.len() as int);
}

/// A new entry with no dependents changes no count.
pub proof fn lemma_total_push_empty(
    d0: Seq<(DependencyType, Vec<DependencyType>)>,
    x: (DependencyType, Vec<DependencyType>),
    n: NodeView,
)
    requires
        x.1@.len() == 0,
    ensures
        total_count(d0.push(x), n) == total_count(d0, n),
{
    let d1 = d0.push(x);
    lemma_rest_same_prefix(d0, d1, Seq::empty(), n, d0.len() as int);
    assert(views(x.1@) =~= Seq::<NodeView>::empty());
    assert(d1[d0.len() as int] == x);
}

/// Appending `x` to a list adds one occurrence of `x`.
pub proof fn lemma_count_push(s: Seq<NodeView>, x: NodeView, n: NodeView)
    ensures
        count_in(s.push(x), n) == count_in(s, n) + if x == n { 1int } else { 0int },
{
    assert(s.push(x).drop_last() =~= s);
}

impl DependencyGraph {
    /// Each node's in-degree is how often it occurs among the dependents,
    /// and whatever occurs among the dependents is a node. The graph's
    /// builders keep this.
    pub open spec fn consistent(self) -> bool {
        &&& forall|n: NodeView| self.has_node(n) ==> #[trigger] total_count(self.dependents@, n)
            == self.degree(n)
        &&& forall|n: NodeView| #[trigger] total_count(self.dependents@, n) > 0 ==> self.has_node(n)
    }

    /// How often `n` occurs among the dependents of the nodes of `placed`.
    pub open spec fn occ(self, placed: Seq<NodeView>, n: NodeView) -> int
        decreases placed.len(),
    {
        if placed.len() == 0 {
            0
        } else {
            self.occ(placed.drop_last(), n) + count_in(self.dependents_of(placed.last()), n)
        }
    }

    /// Once the nodes of `placed` have run, `n` is free to run: it is a node,
    /// it has not run, and every node it waits for has run.
    pub open spec fn ready(self, placed: Seq<NodeView>, n: NodeView) -> bool {
        &&& self.has_node(n)
        &&& !placed.contains(n)
        &&& self.degree(n) == self.occ(placed, n)
    }

    /// Each node of `s` was free to run after the ones before it, and was the
    /// greatest such node.
    pub open spec fn greedy(self, s: Seq<NodeView>) -> bool {
        forall|i: int|
            0 <= i < s.len() ==> {
                &&& self.ready(s.take(i), #[trigger] s[i])
                &&& forall|m: NodeView| self.ready(s.take(i), m) ==> !node_lt(s[i], m)
            }
    }

    /// After `s` no node is free to run.
    pub open spec fn stuck(self, s: Seq<NodeView>) -> bool {
        forall|m: NodeView| !self.ready(s, m)
    }

    /// The run of the scheduler: the sequence that is greedy and ends stuck
    /// (there is exactly one, see `lemma_run_unique`).
    pub open spec fn schedule_run(self) -> Seq<NodeView> {
        choose|s: Seq<NodeView>| self.greedy(s) && self.stuck(s)
    }

    /// No node waits, in total, more often than its in-degree says: the
    /// scheduler never counts an in-degree below zero.
    pub open spec fn counts_within_degrees(self) -> bool {
        forall|n: NodeView|
            self.has_node(n) ==> rest_count(self.dependents@, Seq::empty(), n) <= self.degree(n)
    }

    /// Two greedy runs that agree up to `k` agree one further, or both end.
    proof fn lemma_run_prefix(self, s: Seq<NodeView>, t: Seq<NodeView>, k: int)
        requires
            self.greedy(s),
            self.stuck(s),
            self.greedy(t),
            self.stuck(t),
            0 <= k <= s.len(),
            k <= t.len(),
            s.take(k) == t.take(k),
        ensures
            s == t,
        decreases s.len() - k,
    {
        if k == s.len() && k == t.len() {
            assert(s =~= s.take(k));
            assert(t =~= t.take(k));
        } else if k == s.len() {
            assert(s =~= s.take(k));
            assert(self.ready(t.take(k), t[k]));
            assert(!self.ready(s, t[k]));
        } else if k == t.len() {
            assert(t =~= t.take(k));
            assert(self.ready(s.take(k), s[k]));
            assert(!self.ready(t, s[k]));
        } else {
            assert(self.ready(s.take(k), s[k]));
            assert(self.ready(t.take(k), t[k]));
            if s[k] != t[k] {
                lemma_node_lt_total(s[k], t[k]);
                assert(!node_lt(s[k], t[k]));
                assert(!node_lt(t[k], s[k]));
            }
            assert(s.take(k + 1) =~= s.take(k).push(s[k]));
            assert(t.take(k + 1) =~= t.take(k).push(t[k]));
            self.lemma_run_prefix(s, t, k + 1);
        }
    }

    /// There is at most one greedy run that ends stuck.
    pub proof fn lemma_run_unique(self, s: Seq<NodeView>, t: Seq<NodeView>)
        requires
            self.greedy(s),
            self.stuck(s),
            self.greedy(t),
            self.stuck(t),
        ensures
            s == t,
    {
        assert(s.take(0) =~= t.take(0));
        self.lemma_run_prefix(s, t, 0);
    }
}

/// A node that occurs in a list is counted at least once.
pub proof fn lemma_count_contains(s: Seq<NodeView>, n: NodeView)
    requires
        s.contains(n),
    ensures
        count_in(s, n) >= 1,
    decreases s.len(),
{
    if s.last() != n {
        let i = choose|i: int| 0 <= i < s.len() && s[i] == n;
        assert(s.drop_last()[i] == n);
        lemma_count_contains(s.drop_last(), n);
    } else {
        lemma_count_nonneg(s.drop_last(), n);
    }
}

impl DependencyGraph {
    /// What the nodes of `placed` have counted off plus what the others
    /// still hold is everything.
    pub proof fn lemma_occ_plus_rest(self, placed: Seq<NodeView>, n: NodeView)
        requires
            self.wf(),
            placed.no_duplicates(),
        ensures
            self.occ(placed, n) + rest_count(self.dependents@, placed, n) == total_count(
                self.dependents@,
                n,
            ),
        decreases placed.len(),
    {
        if placed.len() == 0 {
            assert(placed =~= Seq::<NodeView>::empty());
        } else {
            let q = placed.drop_last();
            let p = placed.last();
            assert(placed =~= q.push(p));
            assert(!q.contains(p)) by {
                if q.contains(p) {
                    let i = choose|i: int| 0 <= i < q.len() && q[i] == p;
                    assert(placed[i] == placed[placed.len() - 1]);
                }
            }
            assert(q.no_duplicates()) by {
                assert forall|i: int, j: int| 0 <= i < q.len() && 0 <= j < q.len() && i != j
                    implies q[i] != q[j] by {
                    assert(q[i] == placed[i]);
                    assert(q[j] == placed[j]);
                }
            }
            self.lemma_occ_plus_rest(q, n);
            lemma_rest_place(self.dependents@, q, p, n, self.dependents@.len() as int);
            if self.has_entry(p) {
                let e = choose|e: int| 0 <= e < self.dependents@.len() && self.dependents@[e].0@ == p;
                self.lemma_entry_at(e);
            }
        }
    }

    /// A consistent graph never counts an in-degree below zero when sorted.
    pub proof fn lemma_consistent_counts(self)
        requires
            self.consistent(),
        ensures
            self.counts_within_degrees(),
    {
        assert forall|n: NodeView| self.has_node(n) implies rest_count(self.dependents@, Seq::empty(), n)
            <= self.degree(n) by {
            assert(total_count(self.dependents@, n) == self.degree(n));
        }
    }

    /// A run that lists as many nodes as the graph has lists every node
    /// exactly once.
    pub proof fn lemma_full_run_lists_every_node(self, s: Seq<NodeView>)
        requires
            self.wf(),
            self.greedy(s),
            s.len() == self.in_degrees@.len(),
        ensures
            s.no_duplicates(),
            forall|n: NodeView| self.has_node(n) <==> s.contains(n),
    {
        self.lemma_greedy_no_dup(s);
        let keys = self.in_degrees@.map_values(|e: (DependencyType, usize)| e.0@);
        assert(keys.no_duplicates()) by {
            assert forall|i: int, j: int| 0 <= i < keys.len() && 0 <= j < keys.len() && i != j
                implies keys[i] != keys[j] by {
                assert(keys[i] == self.in_degrees@[i].0@);
                assert(keys[j] == self.in_degrees@[j].0@);
            }
        }
        keys.unique_seq_to_set();
        s.unique_seq_to_set();
        assert forall|x: NodeView| s.to_set().contains(x) implies keys.to_set().contains(x) by {
            let i = choose|i: int| 0 <= i < s.len() && s[i] == x;
            assert(self.has_node(s[i]));
            let k = choose|k: int| 0 <= k < self.in_degrees@.len() && self.in_degrees@[k].0@ == x;
            assert(keys[k] == x);
        }
        vstd::set_lib::lemma_len_subset(s.to_set(), keys.to_set());
        assert forall|x: NodeView| keys.to_set().contains(x) implies s.to_set().contains(x) by {
            if !s.to_set().contains(x) {
                assert(s.to_set().insert(x).len() == s.to_set().len() + 1);
                vstd::set_lib::lemma_len_subset(s.to_set().insert(x), keys.to_set());
            }
        }
        assert forall|n: NodeView| self.has_node(n) <==> s.contains(n) by {
            if self.has_node(n) {
                let k = choose|k: int| 0 <= k < self.in_degrees@.len() && self.in_degrees@[k].0@ == n;
                assert(keys[k] == n);
                assert(keys.to_set().contains(n));
            }
            if s.contains(n) {
                let i = choose|i: int| 0 <= i < s.len() && s[i] == n;
                assert(self.has_node(s[i]));
            }
        }
    }

    /// In a run of a consistent graph, every node comes after each node it
    /// waits for: if `from` is among the dependents of `to`, `to` is placed
    /// before `from`.
    pub proof fn lemma_run_respects_dependencies(
        self,
        s: Seq<NodeView>,
        i: int,
        to: NodeView,
    )
        requires
            self.wf(),
            self.consistent(),
            self.greedy(s),
            0 <= i < s.len(),
            self.dependents_of(to).contains(s[i]),
        ensures
            exists|j: int| 0 <= j < i && s[j] == to,
    {
        let from = s[i];
        let pre = s.take(i);
        self.lemma_greedy_no_dup(s);
        assert(pre.no_duplicates()) by {
            assert forall|a: int, b: int| 0 <= a < pre.len() && 0 <= b < pre.len() && a != b
                implies pre[a] != pre[b] by {
                assert(pre[a] == s[a]);
                assert(pre[b] == s[b]);
            }
        }
        assert(self.ready(pre, from));
        self.lemma_occ_plus_rest(pre, from);
        assert(total_count(self.dependents@, from) == self.degree(from));
        assert(rest_count(self.dependents@, pre, from) == 0);
        assert(self.has_entry(to)) by {
            if !self.has_entry(to) {
                assert(self.dependents_of(to) =~= Seq::<NodeView>::empty());
            }
        }
        let e = choose|e: int| 0 <= e < self.dependents@.len() && self.dependents@[e].0@ == to;
        self.lemma_entry_at(e);
        lemma_count_contains(views(self.dependents@[e].1@), from);
        if !pre.contains(to) {
            lemma_rest_ge_entry(self.dependents@, pre, from, self.dependents@.len() as int, e);
        }
        let j = choose|j: int| 0 <= j < pre.len() && pre[j] == to;
        assert(s[j] == to);
    }
}

/// A copy of a list of in-degrees.
fn copy_degrees(v: &Vec<(DependencyType, usize)>) -> (r: Vec<(DependencyType, usize)>)
    ensures
        r@.len() == v@.len(),
        forall|i: int| 0 <= i < v@.len() ==> #[trigger] r@[i].0@ == v@[i].0@ && r@[i].1 == v@[i].1,
{
    let mut r: Vec<(DependencyType, usize)> = Vec::new();
    let mut i: usize = 0;
    while i < v.len()
        invariant
            i <= v@.len(),
            r@.len() == i,
            forall|j: int| 0 <= j < i ==> #[trigger] r@[j].0@ == v@[j].0@ && r@[j].1 == v@[j].1,
        decreases v@.len() - i,
    {
        r.push((v[i].0.duplicate(), v[i].1));
        i = i + 1;
    }
    r
}

/// The position of a greatest node of a non-empty list.
fn greatest_index(q: &Vec<DependencyType>) -> (b: usize)
    requires
        q@.len() > 0,
    ensures
        b < q@.len(),
        forall|j: int| 0 <= j < q@.len() ==> !node_lt(q@[b as int]@, #[trigger] q@[j]@),
{
    let mut b: usize = 0;
    let mut i: usize = 1;
    proof {
        lemma_node_lt_irreflexive(q@[0]@);
    }
    while i < q.len()
        invariant
            0 < i <= q@.len(),
            b < i,
            forall|j: int| 0 <= j < i ==> !node_lt(q@[b as int]@, #[trigger] q@[j]@),
        decreases q@.len() - i,
    {
        if q[b].precedes(&q[i]) {
            proof {
                assert forall|j: int| 0 <= j < i + 1 implies !node_lt(q@[i as int]@, #[trigger] q@[j]@) by {
                    if j == i {
                        lemma_node_lt_irreflexive(q@[j]@);
                    } else if node_lt(q@[i as int]@, q@[j]@) {
                        lemma_node_lt_transitive(q@[b as int]@, q@[i as int]@, q@[j]@);
                    }
                }
            }
            b = i;
        }
        i = i + 1;
    }
    b
}

impl DependencyGraph {
    /// A greedy run places no node twice.
    proof fn lemma_greedy_no_dup(self, s: Seq<NodeView>)
        requires
            self.greedy(s),
        ensures
            s.no_duplicates(),
            forall|i: int| 0 <= i < s.len() ==> self.has_node(#[trigger] s[i]),
    {
        assert forall|i: int, j: int| 0 <= i < s.len() && 0 <= j < s.len() && i != j
            implies s[i] != s[j] by {
            if i < j {
                assert(self.ready(s.take(j), s[j]));
                assert(s.take(j)[i] == s[i]);
                assert(s.take(j).contains(s[i]));
            } else {
                assert(self.ready(s.take(i), s[i]));
                assert(s.take(i)[j] == s[j]);
                assert(s.take(i).contains(s[j]));
            }
        }
        assert forall|i: int| 0 <= i < s.len() implies self.has_node(#[trigger] s[i]) by {
            assert(self.ready(s.take(i), s[i]));
        }
    }

    /// A greedy run is no longer than the list of in-degrees.
    proof fn lemma_greedy_len(self, s: Seq<NodeView>)
        requires
            self.wf(),
            self.greedy(s),
        ensures
            s.no_duplicates(),
            s.len() <= self.in_degrees@.len(),
    {
        self.lemma_greedy_no_dup(s);
        let keys = self.in_degrees@.map_values(|e: (DependencyType, usize)| e.0@);
        assert(keys.no_duplicates()) by {
            assert forall|i: int, j: int| 0 <= i < keys.len() && 0 <= j < keys.len() && i != j
                implies keys[i] != keys[j] by {
                assert(keys[i] == self.in_degrees@[i].0@);
                assert(keys[j] == self.in_degrees@[j].0@);
            }
        }
        keys.unique_seq_to_set();
        s.unique_seq_to_set();
        assert forall|x: NodeView| s.to_set().contains(x) implies keys.to_set().contains(x) by {
            let i = choose|i: int| 0 <= i < s.len() && s[i] == x;
            assert(self.has_node(s[i]));
            let k = choose|k: int| 0 <= k < self.in_degrees@.len() && self.in_degrees@[k].0@ == x;
            assert(keys[k] == x);
        }
        vstd::set_lib::lemma_len_subset(s.to_set(), keys.to_set());
    }

    /// The state the scheduler keeps: `rem` holds, per in-degree entry, how
    /// many of the node's waits are still open once `placed` has run and the
    /// dependents in `extra` have been counted off.
    pub open spec fn rem_ok(
        self,
        rem: Seq<(DependencyType, usize)>,
        placed: Seq<NodeView>,
        extra: Seq<NodeView>,
    ) -> bool {
        &&& rem.len() == self.in_degrees@.len()
        &&& forall|k: int| 0 <= k < rem.len() ==> #[trigger] rem[k].0@ == self.in_degrees@[k].0@
        &&& forall|k: int| 0 <= k < rem.len() ==> #[trigger] rem[k].1 as int
            == self.in_degrees@[k].1 as int - self.occ(placed, rem[k].0@) - count_in(extra, rem[k].0@)
        &&& forall|k: int| 0 <= k < rem.len() ==> #[trigger] rem[k].1 as int
            >= rest_count(self.dependents@, placed, rem[k].0@) - count_in(extra, rem[k].0@)
    }

    /// Nodes that have run have no open waits left.
    pub open spec fn placed_done(self, rem: Seq<(DependencyType, usize)>, placed: Seq<NodeView>) -> bool {
        forall|k: int| 0 <= k < rem.len() && placed.contains(rem[k].0@) ==> #[trigger] rem[k].1 == 0
    }

    /// The queue holds exactly the nodes free to run, once each.
    pub open spec fn queue_ok(self, queue: Seq<DependencyType>, placed: Seq<NodeView>) -> bool {
        &&& forall|n: NodeView| #[trigger] views(queue).contains(n) <==> self.ready(placed, n)
        &&& views(queue).no_duplicates()
    }

    /// The queue as counted in `rem`: a node of the graph is in it exactly
    /// when it has not run and has no open waits.
    pub open spec fn queue_by_rem(
        self,
        queue: Seq<DependencyType>,
        rem: Seq<(DependencyType, usize)>,
        placed: Seq<NodeView>,
    ) -> bool {
        &&& forall|k: int| 0 <= k < rem.len() ==> (#[trigger] views(queue).contains(rem[k].0@)
            <==> (!placed.contains(rem[k].0@) && rem[k].1 == 0))
        &&& forall|n: NodeView| #[trigger] views(queue).contains(n) ==> self.has_node(n)
        &&& views(queue).no_duplicates()
    }

    proof fn lemma_queue_by_rem(
        self,
        queue: Seq<DependencyType>,
        rem: Seq<(DependencyType, usize)>,
        placed: Seq<NodeView>,
    )
        requires
            self.wf(),
            self.rem_ok(rem, placed, Seq::empty()),
            self.queue_by_rem(queue, rem, placed),
        ensures
            self.queue_ok(queue, placed),
    {
        assert forall|n: NodeView| #[trigger] views(queue).contains(n) <==> self.ready(placed, n) by {
            if self.has_node(n) {
                let k = choose|k: int| 0 <= k < self.in_degrees@.len() && self.in_degrees@[k].0@ == n;
                self.lemma_degree_at(k);
                assert(rem[k].0@ == n);
                assert(count_in(Seq::<NodeView>::empty(), n) == 0);
            }
        }
    }

    /// The nodes with in-degree 0, in the order of the in-degree list.
    fn initial_queue(&self, rem: &Vec<(DependencyType, usize)>) -> (queue: Vec<DependencyType>)
        requires
            self.wf(),
            self.rem_ok(rem@, Seq::empty(), Seq::empty()),
        ensures
            self.queue_by_rem(queue@, rem@, Seq::empty()),
    {
        let mut queue: Vec<DependencyType> = Vec::new();
        let mut i: usize = 0;
        proof {
            assert(views(queue@) =~= Seq::<NodeView>::empty());
        }
        while i < rem.len()
            invariant
                self.wf(),
                self.rem_ok(rem@, Seq::empty(), Seq::empty()),
                i <= rem@.len(),
                forall|k: int| 0 <= k < rem@.len() ==> (#[trigger] views(queue@).contains(rem@[k].0@)
                    <==> (k < i && rem@[k].1 == 0)),
                forall|n: NodeView| #[trigger] views(queue@).contains(n) ==> self.has_node(n),
                views(queue@).no_duplicates(),
            decreases rem@.len() - i,
        {
            let ghost q0 = views(queue@);
            if rem[i].1 == 0 {
                queue.push(rem[i].0.duplicate());
                proof {
                    let key = rem@[i as int].0@;
                    assert(views(queue@) =~= q0.push(key));
                    assert forall|n: NodeView| #[trigger] views(queue@).contains(n) <==> (q0.contains(n)
                        || n == key) by {
                        if views(queue@).contains(n) && n != key {
                            let w = choose|w: int| 0 <= w < views(queue@).len() && views(queue@)[w] == n;
                            assert(q0[w] == n);
                        }
                        if q0.contains(n) {
                            let w = choose|w: int| 0 <= w < q0.len() && q0[w] == n;
                            assert(views(queue@)[w] == n);
                        }
                        if n == key {
                            assert(views(queue@)[q0.len() as int] == n);
                        }
                    }
                    assert(!q0.contains(key));
                    self.lemma_degree_at(i as int);
                    assert forall|k: int| 0 <= k < rem@.len() && k != i implies rem@[k].0@ != key by {
                        assert(rem@[k].0@ == self.in_degrees@[k].0@);
                    }
                }
            } else {
                proof {
                    let key = rem@[i as int].0@;
                    assert forall|k: int| 0 <= k < rem@.len() && k != i implies rem@[k].0@ != key by {
                        assert(rem@[k].0@ == self.in_degrees@[k].0@);
                        assert(rem@[i as int].0@ == self.in_degrees@[i as int].0@);
                    }
                    assert(!q0.contains(key));
                }
            }
            i = i + 1;
        }
        proof {
            assert(Seq::<NodeView>::empty().len() == 0);
            assert forall|k: int| 0 <= k < rem@.len() implies (#[trigger] views(queue@).contains(rem@[k].0@)
                <==> (!Seq::<NodeView>::empty().contains(rem@[k].0@) && rem@[k].1 == 0)) by {}
        }
        queue
    }

    /// Counts off the dependents of the entry `e`, whose node `p` has just
    /// run, queueing each node whose last open wait this closes.
    fn release_dependents(
        &self,
        e: usize,
        placed: Ghost<Seq<NodeView>>,
        rem: &mut Vec<(DependencyType, usize)>,
        queue: &mut Vec<DependencyType>,
    )
        requires
            self.wf(),
            e < self.dependents@.len(),
            !placed@.contains(self.dependents@[e as int].0@),
            self.rem_ok(old(rem)@, placed@, Seq::empty()),
            self.placed_done(old(rem)@, placed@.push(self.dependents@[e as int].0@)),
            self.queue_by_rem(old(queue)@, old(rem)@, placed@.push(self.dependents@[e as int].0@)),
        ensures
            self.rem_ok(final(rem)@, placed@, views(self.dependents@[e as int].1@)),
            self.placed_done(final(rem)@, placed@.push(self.dependents@[e as int].0@)),
            self.queue_by_rem(final(queue)@, final(rem)@, placed@.push(self.dependents@[e as int].0@)),
    {
        let ghost p = self.dependents@[e as int].0@;
        let ghost placed2 = placed@.push(p);
        let list = &self.dependents[e].1;
        let ghost lv = views(list@);
        proof {
            assert(lv.take(0) =~= Seq::<NodeView>::empty());
        }
        let mut j: usize = 0;
        while j < list.len()
            invariant
                self.wf(),
                e < self.dependents@.len(),
                list@ == self.dependents@[e as int].1@,
                lv == views(list@),
                j <= list@.len(),
                !placed@.contains(p),
                p == self.dependents@[e as int].0@,
                placed2 == placed@.push(p),
                self.rem_ok(rem@, placed@, lv.take(j as int)),
                self.placed_done(rem@, placed2),
                self.queue_by_rem(queue@, rem@, placed2),
            decreases list@.len() - j,
        {
            let d = &list[j];
            let ghost r0 = rem@;
            let ghost qq = views(queue@);
            proof {
                assert(lv[j as int] == d@);
                assert forall|n: NodeView| #[trigger] count_in(lv.take(j + 1), n)
                    == count_in(lv.take(j as int), n) + if d@ == n { 1int } else { 0int } by {
                    lemma_count_take_step(lv, j as int, n);
                }
            }
            match find_degree_in(rem, d) {
                Some(t) => {
                    proof {
                        lemma_rest_ge_entry(self.dependents@, placed@, d@, self.dependents@.len() as int, e as int);
                        lemma_count_take_le(lv, j + 1, d@);
                        assert(rem@[t as int].1 >= 1);
                        if placed2.contains(d@) {
                            assert(rem@[t as int].1 == 0);
                        }
                    }
                    let newv = rem[t].1 - 1;
                    rem[t].1 = newv;
                    proof {
                        assert forall|k: int| 0 <= k < rem@.len() && k != t implies rem@[k].0@ != d@ by {
                            assert(r0[k].0@ == self.in_degrees@[k].0@);
                            assert(r0[t as int].0@ == self.in_degrees@[t as int].0@);
                        }
                        assert forall|k: int| 0 <= k < rem@.len() implies #[trigger] rem@[k].0@ == self.in_degrees@[k].0@ by {
                            assert(r0[k].0@ == self.in_degrees@[k].0@);
                        }
                    }
                    if newv == 0 {
                        queue.push(d.duplicate());
                        proof {
                            assert(views(queue@) =~= qq.push(d@));
                            assert(!qq.contains(d@));
                            assert forall|n: NodeView| #[trigger] views(queue@).contains(n) <==> (qq.contains(n)
                                || n == d@) by {
                                if views(queue@).contains(n) && n != d@ {
                                    let w = choose|w: int| 0 <= w < views(queue@).len() && views(queue@)[w] == n;
                                    assert(qq[w] == n);
                                }
                                if qq.contains(n) {
                                    let w = choose|w: int| 0 <= w < qq.len() && qq[w] == n;
                                    assert(views(queue@)[w] == n);
                                }
                                if n == d@ {
                                    assert(views(queue@)[qq.len() as int] == n);
                                }
                            }
                            self.lemma_degree_at(t as int);
                        }
                    }
                },
                None => {
                    proof {
                        assert forall|k: int| 0 <= k < rem@.len() implies rem@[k].0@ != d@ by {}
                    }
                },
            }
            j = j + 1;
        }
        proof {
            assert(lv.take(j as int) =~= lv);
        }
    }

    /// Runs the greatest free node: moves it from the queue to `sorted` and
    /// counts off its dependents.
    fn place_next(
        &self,
        rem: &mut Vec<(DependencyType, usize)>,
        queue: &mut Vec<DependencyType>,
        sorted: &mut Vec<DependencyType>,
    )
        requires
            self.wf(),
            self.counts_within_degrees(),
            old(queue)@.len() > 0,
            self.rem_ok(old(rem)@, views(old(sorted)@), Seq::empty()),
            self.placed_done(old(rem)@, views(old(sorted)@)),
            self.queue_ok(old(queue)@, views(old(sorted)@)),
            self.greedy(views(old(sorted)@)),
        ensures
            self.rem_ok(final(rem)@, views(final(sorted)@), Seq::empty()),
            self.placed_done(final(rem)@, views(final(sorted)@)),
            self.queue_ok(final(queue)@, views(final(sorted)@)),
            self.greedy(views(final(sorted)@)),
            final(sorted)@.len() == old(sorted)@.len() + 1,
    {
        let ghost placed = views(sorted@);
        let ghost qv = queue@;
        let b = greatest_index(queue);
        let p = queue.remove(b);
        proof {
            assert(views(qv)[b as int] == p@);
            assert(views(qv).contains(p@));
            assert(self.ready(placed, p@));
            assert forall|m: NodeView| self.ready(placed, m) implies !node_lt(p@, m) by {
                assert(views(qv).contains(m));
                let w = choose|w: int| 0 <= w < views(qv).len() && views(qv)[w] == m;
                assert(qv[w]@ == m);
            }
            assert forall|n: NodeView| #[trigger] views(queue@).contains(n) <==> (views(qv).contains(n)
                && n != p@) by {
                if views(queue@).contains(n) {
                    let w = choose|w: int| 0 <= w < views(queue@).len() && views(queue@)[w] == n;
                    if w < b {
                        assert(views(qv)[w] == n);
                    } else {
                        assert(views(qv)[w + 1] == n);
                    }
                }
                if views(qv).contains(n) && n != p@ {
                    let w = choose|w: int| 0 <= w < views(qv).len() && views(qv)[w] == n;
                    if w < b {
                        assert(views(queue@)[w] == n);
                    } else {
                        assert(w != b);
                        assert(views(queue@)[w - 1] == n);
                    }
                }
            }
            assert(views(queue@).no_duplicates()) by {
                assert forall|x: int, y: int| 0 <= x < views(queue@).len() && 0 <= y < views(queue@).len()
                    && x != y implies views(queue@)[x] != views(queue@)[y] by {
                    let xx = if x < b { x } else { x + 1 };
                    let yy = if y < b { y } else { y + 1 };
                    assert(views(queue@)[x] == views(qv)[xx]);
                    assert(views(queue@)[y] == views(qv)[yy]);
                }
            }
        }
        let entry = self.find_entry(&p);
        sorted.push(p);
        let ghost placed2 = views(sorted@);
        proof {
            assert(placed2 =~= placed.push(p@));
            assert(placed2.drop_last() =~= placed);
            assert forall|x: NodeView| #[trigger] placed2.contains(x) <==> (placed.contains(x)
                || x == p@) by {
                if placed2.contains(x) && x != p@ {
                    let w = choose|w: int| 0 <= w < placed2.len() && placed2[w] == x;
                    assert(placed[w] == x);
                }
                if placed.contains(x) {
                    let w = choose|w: int| 0 <= w < placed.len() && placed[w] == x;
                    assert(placed2[w] == x);
                }
                if x == p@ {
                    assert(placed2[placed.len() as int] == x);
                }
            }
            assert forall|i: int| 0 <= i < placed2.len() implies {
                &&& self.ready(placed2.take(i), #[trigger] placed2[i])
                &&& forall|m: NodeView| self.ready(placed2.take(i), m) ==> !node_lt(placed2[i], m)
            } by {
                if i < placed.len() {
                    assert(placed2.take(i) =~= placed.take(i));
                    assert(placed2[i] == placed[i]);
                } else {
                    assert(placed2.take(i) =~= placed);
                }
            }
            let k = choose|k: int| 0 <= k < self.in_degrees@.len() && self.in_degrees@[k].0@ == p@;
            self.lemma_degree_at(k);
            assert(rem@[k].0@ == p@);
            assert(self.placed_done(rem@, placed2));
            assert forall|k: int| 0 <= k < rem@.len() implies (#[trigger] views(queue@).contains(rem@[k].0@)
                <==> (!placed2.contains(rem@[k].0@) && rem@[k].1 == 0)) by {
                let key = rem@[k].0@;
                self.lemma_degree_at(k);
                assert(count_in(Seq::<NodeView>::empty(), key) == 0);
            }
            assert(self.queue_by_rem(queue@, rem@, placed2));
        }
        match entry {
            Some(e) => {
                proof {
                    self.lemma_entry_at(e as int);
                }
                self.release_dependents(e, Ghost(placed), rem, queue);
                proof {
                    let lv = views(self.dependents@[e as int].1@);
                    assert(self.dependents_of(p@) == lv);
                    assert forall|k: int| 0 <= k < rem@.len() implies rest_count(self.dependents@, placed2,
                        #[trigger] rem@[k].0@) == rest_count(self.dependents@, placed, rem@[k].0@) - count_in(lv, rem@[k].0@) by {
                        lemma_rest_place(self.dependents@, placed, p@, rem@[k].0@, self.dependents@.len() as int);
                    }
                    assert forall|k: int| 0 <= k < rem@.len() implies self.occ(placed2, #[trigger] rem@[k].0@)
                        == self.occ(placed, rem@[k].0@) + count_in(lv, rem@[k].0@) by {}
                    assert(self.rem_ok(rem@, placed2, Seq::empty()));
                }
            },
            None => {
                proof {
                    assert(self.dependents_of(p@) =~= Seq::<NodeView>::empty());
                    assert forall|k: int| 0 <= k < rem@.len() implies rest_count(self.dependents@, placed2,
                        #[trigger] rem@[k].0@) == rest_count(self.dependents@, placed, rem@[k].0@) by {
                        lemma_rest_place(self.dependents@, placed, p@, rem@[k].0@, self.dependents@.len() as int);
                    }
                    assert forall|k: int| 0 <= k < rem@.len() implies self.occ(placed2, #[trigger] rem@[k].0@)
                        == self.occ(placed, rem@[k].0@) by {}
                    assert(self.rem_ok(rem@, placed2, Seq::empty()));
                }
            },
        }
        proof {
            self.lemma_queue_by_rem(queue@, rem@, placed2);
        }
    }

    /// Orders the nodes so that each comes after the nodes it waits for;
    /// among the nodes free to go next the greatest goes first. Fails with
    /// "Circular dependency detected" when some nodes never become free.
    pub fn topological_sort(&self) -> (r: Result<Vec<DependencyType>, &'static str>)
        requires
            self.wf(),
            self.counts_within_degrees(),
        ensures
            match r {
                Ok(s) => views(s@) == self.schedule_run() && s@.len() == self.in_degrees@.len(),
                Err(e) => self.schedule_run().len() != self.in_degrees@.len()
                    && e@ == "Circular dependency detected"@,
            },
    {
        let mut rem = copy_degrees(&self.in_degrees);
        let mut sorted: Vec<DependencyType> = Vec::new();
        proof {
            assert(views(sorted@) =~= Seq::<NodeView>::empty());
            assert forall|k: int| 0 <= k < rem@.len() implies #[trigger] rem@[k].1 as int
                >= rest_count(self.dependents@, Seq::empty(), rem@[k].0@) - count_in(Seq::empty(), rem@[k].0@) by {
                self.lemma_degree_at(k);
            }
        }
        let mut queue = self.initial_queue(&rem);
        proof {
            self.lemma_queue_by_rem(queue@, rem@, views(sorted@));
        }
        while queue.len() > 0
            invariant
                self.wf(),
                self.counts_within_degrees(),
                self.rem_ok(rem@, views(sorted@), Seq::empty()),
                self.placed_done(rem@, views(sorted@)),
                self.queue_ok(queue@, views(sorted@)),
                self.greedy(views(sorted@)),
            decreases self.in_degrees@.len() - sorted@.len(),
        {
            proof {
                self.lemma_greedy_len(views(sorted@));
            }
            self.place_next(&mut rem, &mut queue, &mut sorted);
            proof {
                self.lemma_greedy_len(views(sorted@));
            }
        }
        proof {
            assert(queue@.len() == 0);
            assert forall|m: NodeView| !self.ready(views(sorted@), m) by {
                if self.ready(views(sorted@), m) {
                    assert(views(queue@).contains(m));
                }
            }
            assert(self.stuck(views(sorted@)));
            self.lemma_greedy_len(views(sorted@));
            let t = self.schedule_run();
            assert(self.greedy(t) && self.stuck(t));
            self.lemma_run_unique(t, views(sorted@));
        }
        if sorted.len() == self.in_degrees.len() {
            Ok(sorted)
        } else {
            Err("Circular dependency detected")
        }
    }
}

} // verus!
