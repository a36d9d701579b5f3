//! Merging one scheduling graph into another.

use vstd::prelude::*;
use crate::build::dependency::{DependencyGraph, DependencyType, NodeView, count_in, views};
use crate::build::schedule::{total_count, rest_upto, lemma_count_take_step, lemma_count_take_le,
    lemma_count_nonneg, lemma_count_contains, lemma_total_nonneg};

verus! {

/// Some of the first `k` entries has key `n` and a non-empty list.
pub open spec fn nonempty_key_upto(
    deps: Seq<(DependencyType, Vec<DependencyType>)>,
    n: NodeView,
    k: int,
) -> bool
    decreases k,
{
    if k <= 0 {
        false
    } else {
        nonempty_key_upto(deps, n, k - 1) || (deps[k - 1].0@ == n && deps[k - 1].1@.len() > 0)
    }
}

/// A node that is counted occurs in the list.
pub proof fn lemma_count_pos(s: Seq<NodeView>, n: NodeView)
    requires
        count_in(s, n) > 0,
    ensures
        s.contains(n),
    decreases s.len(),
{
    if s.last() != n {
        lemma_count_pos(s.drop_last(), n);
        let i = choose|i: int| 0 <= i < s.drop_last().len() && s.drop_last()[i] == n;
        assert(s[i] == n);
    } else {
        assert(s[s.len() - 1] == n);
    }
}

proof fn lemma_rest_upto_mono(
    deps: Seq<(DependencyType, Vec<DependencyType>)>,
    n: NodeView,
    k: int,
    m: int,
)
    requires
        0 <= k <= m <= deps.len(),
    ensures
        rest_upto(deps, Seq::empty(), n, k) + if k < m {
            count_in(views(deps[k].1@), n)
        } else {
            0
        } <= rest_upto(deps, Seq::empty(), n, m),
    decreases m - k,
{
    if k < m {
        assert(!Seq::<NodeView>::empty().contains(deps[k].0@));
        if k + 1 < m {
            lemma_rest_upto_mono(deps, n, k + 1, m);
            lemma_count_nonneg(views(deps[k + 1].1@), n);
        }
    }
}

impl DependencyGraph {
    /// Every node that has a list of dependents is a node of the graph, as
    /// adding a dependency makes it one.
    pub open spec fn entries_are_nodes(self) -> bool {
        forall|n: NodeView| #[trigger] self.has_entry(n) ==> self.has_node(n)
    }

    /// What a merge gives, where `other` counts its in-degrees and makes a
    /// node of every node with a list of dependents: in-degrees are summed
    /// and the nodes are those of both graphs.
    proof fn lemma_merge_totals(g0: Self, other: Self, g: Self)
        requires
            forall|n: NodeView| #[trigger] g.degree(n) == g0.degree(n) + total_count(other.dependents@, n),
            forall|n: NodeView| #[trigger] g.has_node(n) == (g0.has_node(n) || other.has_node(n)
                || other.dependents_of(n).len() > 0 || total_count(other.dependents@, n) > 0),
            forall|n: NodeView| #[trigger] g.has_entry(n) == (g0.has_entry(n) || other.has_node(n)
                || other.dependents_of(n).len() > 0),
        ensures
            other.consistent() && other.entries_are_nodes() ==> forall|n: NodeView| #[trigger]
                g.degree(n) == g0.degree(n) + other.degree(n),
            other.consistent() && other.entries_are_nodes() ==> forall|n: NodeView| #[trigger]
                g.has_node(n) == (g0.has_node(n) || other.has_node(n)),
            g0.entries_are_nodes() && other.entries_are_nodes() ==> g.entries_are_nodes(),
    {
        if other.consistent() && other.entries_are_nodes() {
            assert forall|n: NodeView| #[trigger] g.degree(n) == g0.degree(n) + other.degree(n) by {
                assert(g.degree(n) == g0.degree(n) + total_count(other.dependents@, n));
                lemma_total_nonneg(other.dependents@, n);
                if other.has_node(n) {
                    assert(total_count(other.dependents@, n) == other.degree(n));
                } else {
                    assert(total_count(other.dependents@, n) <= 0);
                }
            }
            assert forall|n: NodeView| #[trigger] g.has_node(n) == (g0.has_node(n) || other.has_node(n)) by {
                assert(g.has_node(n) == (g0.has_node(n) || other.has_node(n)
                    || other.dependents_of(n).len() > 0 || total_count(other.dependents@, n) > 0));
                if other.dependents_of(n).len() > 0 {
                    assert(other.has_entry(n)) by {
                        if !other.has_entry(n) {
                            assert(other.dependents_of(n) =~= Seq::<NodeView>::empty());
                        }
                    }
                }
            }
        }
        if g0.entries_are_nodes() && other.entries_are_nodes() {
            assert forall|n: NodeView| #[trigger] g.has_entry(n) implies g.has_node(n) by {
                assert(g.has_entry(n) == (g0.has_entry(n) || other.has_node(n) || other.dependents_of(n).len() > 0));
                assert(g.has_node(n) == (g0.has_node(n) || other.has_node(n)
                    || other.dependents_of(n).len() > 0 || total_count(other.dependents@, n) > 0));
            }
        }
    }

    proof fn lemma_nonempty_key_upto(self, n: NodeView, k: int)
        requires
            self.wf(),
            0 <= k <= self.dependents@.len(),
        ensures
            nonempty_key_upto(self.dependents@, n, k) <==> exists|e: int|
                0 <= e < k && self.dependents@[e].0@ == n && self.dependents@[e].1@.len() > 0,
        decreases k,
    {
        if k > 0 {
            self.lemma_nonempty_key_upto(n, k - 1);
        }
    }

    /// Adds the nodes and dependencies of `other` to this graph: each node of
    /// `other` becomes a node, and each node of a list of `other` is added as
    /// a dependency, so lists are appended to and in-degrees summed.
    pub fn merge(&mut self, other: &Self)
        requires
            old(self).wf(),
            other.wf(),
            forall|n: NodeView|
                old(self).degree(n) + #[trigger] total_count(other.dependents@, n) <= usize::MAX,
        ensures
            final(self).wf(),
            forall|n: NodeView| #[trigger]
                final(self).dependents_of(n) == old(self).dependents_of(n) + other.dependents_of(n),
            forall|n: NodeView| #[trigger]
                final(self).degree(n) == old(self).degree(n) + total_count(other.dependents@, n),
            forall|n: NodeView| #[trigger]
                final(self).has_node(n) == (old(self).has_node(n) || other.has_node(n)
                    || other.dependents_of(n).len() > 0 || total_count(other.dependents@, n) > 0),
            forall|n: NodeView| #[trigger]
                final(self).has_entry(n) == (old(self).has_entry(n) || other.has_node(n)
                    || other.dependents_of(n).len() > 0),
            forall|n: NodeView| #[trigger] total_count(final(self).dependents@, n)
                == total_count(old(self).dependents@, n) + total_count(other.dependents@, n),
            old(self).consistent() ==> final(self).consistent(),
            other.consistent() && other.entries_are_nodes() ==> forall|n: NodeView| #[trigger]
                final(self).degree(n) == old(self).degree(n) + other.degree(n),
            other.consistent() && other.entries_are_nodes() ==> forall|n: NodeView| #[trigger]
                final(self).has_node(n) == (old(self).has_node(n) || other.has_node(n)),
            old(self).entries_are_nodes() && other.entries_are_nodes() ==> final(self).entries_are_nodes(),
    {
        let ghost g0 = *self;
        let mut i: usize = 0;
        while i < other.in_degrees.len()
            invariant
                self.wf(),
                other.wf(),
                i <= other.in_degrees@.len(),
                forall|n: NodeView| #[trigger] self.has_node(n) == (g0.has_node(n) || exists|e: int|
                    0 <= e < i && other.in_degrees@[e].0@ == n),
                forall|n: NodeView| #[trigger] self.has_entry(n) == (g0.has_entry(n) || exists|e: int|
                    0 <= e < i && other.in_degrees@[e].0@ == n),
                forall|n: NodeView| #[trigger] self.dependents_of(n) == g0.dependents_of(n),
                forall|n: NodeView| #[trigger] self.degree(n) == g0.degree(n),
                forall|n: NodeView| #[trigger] total_count(self.dependents@, n) == total_count(
                    g0.dependents@, n),
                g0.consistent() ==> self.consistent(),
            decreases other.in_degrees@.len() - i,
        {
            let ghost s0 = *self;
            let node = other.in_degrees[i].0.duplicate();
            self.add_node(node);
            proof {
                let key = other.in_degrees@[i as int].0@;
                assert forall|n: NodeView| #[trigger] self.has_node(n) == (g0.has_node(n) || exists|e: int|
                    0 <= e < i + 1 && other.in_degrees@[e].0@ == n) by {
                    if n == key {
                        assert(other.in_degrees@[i as int].0@ == n);
                    }
                    assert(s0.has_node(n) == (g0.has_node(n) || exists|e: int|
                        0 <= e < i && other.in_degrees@[e].0@ == n));
                }
                assert forall|n: NodeView| #[trigger] self.has_entry(n) == (g0.has_entry(n) || exists|e: int|
                    0 <= e < i + 1 && other.in_degrees@[e].0@ == n) by {
                    if n == key {
                        assert(other.in_degrees@[i as int].0@ == n);
                    }
                    assert(s0.has_entry(n) == (g0.has_entry(n) || exists|e: int|
                        0 <= e < i && other.in_degrees@[e].0@ == n));
                }
                assert forall|n: NodeView| #[trigger] self.dependents_of(n) == g0.dependents_of(n) by {
                    assert(s0.dependents_of(n) == g0.dependents_of(n));
                }
                assert forall|n: NodeView| #[trigger] self.degree(n) == g0.degree(n) by {
                    assert(s0.degree(n) == g0.degree(n));
                }
                assert forall|n: NodeView| #[trigger] total_count(self.dependents@, n) == total_count(
                    g0.dependents@, n) by {
                    assert(total_count(s0.dependents@, n) == total_count(g0.dependents@, n));
                }
            }
            i = i + 1;
        }
        let ghost g1 = *self;
        proof {
            assert forall|n: NodeView| #[trigger] g1.has_node(n) == (g0.has_node(n) || other.has_node(n)) by {}
            assert forall|n: NodeView| #[trigger] g1.has_entry(n) == (g0.has_entry(n) || other.has_node(n)) by {}
        }
        let mut k: usize = 0;
        while k < other.dependents.len()
            invariant
                self.wf(),
                other.wf(),
                k <= other.dependents@.len(),
                forall|n: NodeView|
                    g0.degree(n) + #[trigger] total_count(other.dependents@, n) <= usize::MAX,
                forall|n: NodeView| #[trigger] g1.degree(n) == g0.degree(n),
                forall|n: NodeView| #[trigger] g1.has_node(n) == (g0.has_node(n) || other.has_node(n)),
                forall|n: NodeView| #[trigger] g1.has_entry(n) == (g0.has_entry(n) || other.has_node(n)),
                forall|n: NodeView| #[trigger] g1.dependents_of(n) == g0.dependents_of(n),
                forall|n: NodeView| #[trigger] total_count(g1.dependents@, n) == total_count(g0.dependents@, n),
                g0.consistent() ==> g1.consistent(),
                forall|n: NodeView| #[trigger] self.dependents_of(n) == g1.dependents_of(n) + if exists|e: int|
                    0 <= e < k && other.dependents@[e].0@ == n {
                    other.dependents_of(n)
                } else {
                    Seq::empty()
                },
                forall|n: NodeView| #[trigger] self.degree(n) == g1.degree(n) + rest_upto(
                    other.dependents@, Seq::empty(), n, k as int),
                forall|n: NodeView| #[trigger] total_count(self.dependents@, n) == total_count(
                    g1.dependents@, n) + rest_upto(other.dependents@, Seq::empty(), n, k as int),
                forall|n: NodeView| #[trigger] self.has_node(n) == (g1.has_node(n) || nonempty_key_upto(
                    other.dependents@, n, k as int) || rest_upto(other.dependents@, Seq::empty(), n, k as int) > 0),
                forall|n: NodeView| #[trigger] self.has_entry(n) == (g1.has_entry(n) || nonempty_key_upto(
                    other.dependents@, n, k as int)),
                g1.consistent() ==> self.consistent(),
            decreases other.dependents@.len() - k,
        {
            let ghost s0 = *self;
            let to_node = &other.dependents[k].0;
            let list = &other.dependents[k].1;
            let ghost lv = views(list@);
            let ghost key = other.dependents@[k as int].0@;
            proof {
                other.lemma_entry_at(k as int);
                assert(lv.take(0) =~= Seq::<NodeView>::empty());
                assert(!Seq::<NodeView>::empty().contains(key));
                lemma_rest_upto_mono(other.dependents@, key, k as int, other.dependents@.len() as int);
            }
            let mut j: usize = 0;
            while j < list.len()
                invariant
                    self.wf(),
                    other.wf(),
                    k < other.dependents@.len(),
                    list@ == other.dependents@[k as int].1@,
                    lv == views(list@),
                    key == other.dependents@[k as int].0@,
                    to_node@ == key,
                    j <= list@.len(),
                    forall|n: NodeView|
                        g0.degree(n) + #[trigger] total_count(other.dependents@, n) <= usize::MAX,
                    forall|n: NodeView| #[trigger] g1.degree(n) == g0.degree(n),
                    forall|n: NodeView| #[trigger] self.dependents_of(n) == s0.dependents_of(n) + if n == key {
                        lv.take(j as int)
                    } else {
                        Seq::empty()
                    },
                    forall|n: NodeView| #[trigger] self.degree(n) == s0.degree(n) + count_in(
                        lv.take(j as int), n),
                    forall|n: NodeView| #[trigger] total_count(self.dependents@, n) == total_count(
                        s0.dependents@, n) + count_in(lv.take(j as int), n),
                    forall|n: NodeView| #[trigger] self.has_node(n) == (s0.has_node(n) || (n == key
                        && j > 0) || count_in(lv.take(j as int), n) > 0),
                    forall|n: NodeView| #[trigger] self.has_entry(n) == (s0.has_entry(n) || (n == key
                        && j > 0)),
                    forall|n: NodeView| #[trigger] s0.degree(n) == g1.degree(n) + rest_upto(
                        other.dependents@, Seq::empty(), n, k as int),
                    s0.consistent() ==> self.consistent(),
                decreases list@.len() - j,
            {
                let ghost t0 = *self;
                let from = &list[j];
                proof {
                    assert(lv[j as int] == from@);
                    lemma_count_take_step(lv, j as int, from@);
                    lemma_count_take_le(lv, j + 1, from@);
                    lemma_rest_upto_mono(other.dependents@, from@, k as int, other.dependents@.len() as int);
                    assert(!Seq::<NodeView>::empty().contains(key));
                    assert(g0.degree(from@) + total_count(other.dependents@, from@) <= usize::MAX);
                    assert(total_count(other.dependents@, from@) == rest_upto(other.dependents@,
                        Seq::empty(), from@, other.dependents@.len() as int));
                    assert(g1.degree(from@) == g0.degree(from@));
                    assert(s0.degree(from@) == g1.degree(from@) + rest_upto(other.dependents@,
                        Seq::empty(), from@, k as int));
                    assert(self.degree(from@) == s0.degree(from@) + count_in(lv.take(j as int), from@));
                    assert(count_in(lv.take(j + 1), from@) <= count_in(lv, from@));
                    assert(self.degree(from@) < usize::MAX);
                }
                self.add_dependency(from.duplicate(), to_node.duplicate());
                proof {
                    assert forall|n: NodeView| #[trigger] self.dependents_of(n) == s0.dependents_of(n)
                        + if n == key { lv.take(j + 1) } else { Seq::empty() } by {
                        assert(t0.dependents_of(n) == s0.dependents_of(n) + if n == key {
                            lv.take(j as int)
                        } else {
                            Seq::empty()
                        });
                        if n == key {
                            assert(lv.take(j + 1) =~= lv.take(j as int).push(from@));
                            assert(s0.dependents_of(n) + lv.take(j + 1) =~= (s0.dependents_of(n)
                                + lv.take(j as int)).push(from@));
                        } else {
                            assert(s0.dependents_of(n) + Seq::<NodeView>::empty() =~= s0.dependents_of(n));
                        }
                    }
                    assert forall|n: NodeView| #[trigger] self.degree(n) == s0.degree(n) + count_in(
                        lv.take(j + 1), n) by {
                        lemma_count_take_step(lv, j as int, n);
                        assert(t0.degree(n) == s0.degree(n) + count_in(lv.take(j as int), n));
                    }
                    assert forall|n: NodeView| #[trigger] total_count(self.dependents@, n) == total_count(
                        s0.dependents@, n) + count_in(lv.take(j + 1), n) by {
                        lemma_count_take_step(lv, j as int, n);
                        assert(total_count(t0.dependents@, n) == total_count(s0.dependents@, n)
                            + count_in(lv.take(j as int), n));
                    }
                    assert forall|n: NodeView| #[trigger] self.has_node(n) == (s0.has_node(n) || (n == key
                        && j + 1 > 0) || count_in(lv.take(j + 1), n) > 0) by {
                        lemma_count_take_step(lv, j as int, n);
                        lemma_count_nonneg(lv.take(j as int), n);
                        assert(t0.has_node(n) == (s0.has_node(n) || (n == key && j > 0) || count_in(
                            lv.take(j as int), n) > 0));
                    }
                    assert forall|n: NodeView| #[trigger] self.has_entry(n) == (s0.has_entry(n) || (n == key
                        && j + 1 > 0)) by {
                        assert(t0.has_entry(n) == (s0.has_entry(n) || (n == key && j > 0)));
                    }
                }
                j = j + 1;
            }
            proof {
                assert(lv.take(j as int) =~= lv);
                assert forall|n: NodeView| rest_upto(other.dependents@, Seq::empty(), n, k + 1)
                    == rest_upto(other.dependents@, Seq::empty(), n, k as int) + count_in(lv, n) by {
                    assert(!Seq::<NodeView>::empty().contains(other.dependents@[k as int].0@));
                }
                assert forall|n: NodeView| #[trigger] self.dependents_of(n) == g1.dependents_of(n)
                    + if exists|e: int| 0 <= e < k + 1 && other.dependents@[e].0@ == n {
                    other.dependents_of(n)
                } else {
                    Seq::empty()
                } by {
                    let was = exists|e: int| 0 <= e < k && other.dependents@[e].0@ == n;
                    assert(s0.dependents_of(n) == g1.dependents_of(n) + if was {
                        other.dependents_of(n)
                    } else {
                        Seq::empty()
                    });
                    if n == key {
                        assert(other.dependents@[k as int].0@ == n);
                        assert(!was) by {
                            if was {
                                let e = choose|e: int| 0 <= e < k && other.dependents@[e].0@ == n;
                                assert(other.dependents@[e].0@ != other.dependents@[k as int].0@);
                            }
                        }
                        assert(g1.dependents_of(n) + Seq::<NodeView>::empty() =~= g1.dependents_of(n));
                    } else {
                        if exists|e: int| 0 <= e < k + 1 && other.dependents@[e].0@ == n {
                            let e = choose|e: int| 0 <= e < k + 1 && other.dependents@[e].0@ == n;
                            assert(e != k);
                            assert(was);
                        }
                        assert(s0.dependents_of(n) + Seq::<NodeView>::empty() =~= s0.dependents_of(n));
                    }
                }
                assert forall|n: NodeView| #[trigger] self.degree(n) == g1.degree(n) + rest_upto(
                    other.dependents@, Seq::empty(), n, k + 1) by {
                    assert(s0.degree(n) == g1.degree(n) + rest_upto(other.dependents@, Seq::empty(), n,
                        k as int));
                }
                assert forall|n: NodeView| #[trigger] total_count(self.dependents@, n) == total_count(
                    g1.dependents@, n) + rest_upto(other.dependents@, Seq::empty(), n, k + 1) by {
                    assert(total_count(s0.dependents@, n) == total_count(g1.dependents@, n) + rest_upto(
                        other.dependents@, Seq::empty(), n, k as int));
                }
                assert forall|n: NodeView| #[trigger] self.has_node(n) == (g1.has_node(n) || nonempty_key_upto(
                    other.dependents@, n, k + 1) || rest_upto(other.dependents@, Seq::empty(), n, k + 1) > 0) by {
                    assert(s0.has_node(n) == (g1.has_node(n) || nonempty_key_upto(other.dependents@, n,
                        k as int) || rest_upto(other.dependents@, Seq::empty(), n, k as int) > 0));
                    lemma_count_nonneg(lv, n);
                    crate::build::schedule::lemma_rest_nonneg(other.dependents@, Seq::empty(), n, k as int);
                    assert(lv.len() == other.dependents@[k as int].1@.len());
                }
                assert forall|n: NodeView| #[trigger] self.has_entry(n) == (g1.has_entry(n) || nonempty_key_upto(
                    other.dependents@, n, k + 1)) by {
                    assert(s0.has_entry(n) == (g1.has_entry(n) || nonempty_key_upto(other.dependents@, n,
                        k as int)));
                }
            }
            k = k + 1;
        }
        proof {
            let g = *self;
            let len = other.dependents@.len() as int;
            assert forall|n: NodeView| #[trigger] g.dependents_of(n) == g0.dependents_of(n) + other.dependents_of(n) by {
                if exists|e: int| 0 <= e < len && other.dependents@[e].0@ == n {
                } else {
                    assert(!other.has_entry(n));
                    assert(other.dependents_of(n) =~= Seq::<NodeView>::empty());
                }
            }
            assert forall|n: NodeView| #[trigger] g.has_node(n) == (g0.has_node(n) || other.has_node(n)
                || other.dependents_of(n).len() > 0 || total_count(other.dependents@, n) > 0) by {
                other.lemma_nonempty_key_upto(n, len);
                if nonempty_key_upto(other.dependents@, n, len) {
                    let e = choose|e: int| 0 <= e < len && other.dependents@[e].0@ == n
                        && other.dependents@[e].1@.len() > 0;
                    other.lemma_entry_at(e);
                }
                if other.dependents_of(n).len() > 0 {
                    assert(other.has_entry(n));
                    let e = choose|e: int| 0 <= e < len && other.dependents@[e].0@ == n;
                    other.lemma_entry_at(e);
                }
            }
            assert forall|n: NodeView| #[trigger] g.has_entry(n) == (g0.has_entry(n) || other.has_node(n)
                || other.dependents_of(n).len() > 0) by {
                other.lemma_nonempty_key_upto(n, len);
                if nonempty_key_upto(other.dependents@, n, len) {
                    let e = choose|e: int| 0 <= e < len && other.dependents@[e].0@ == n
                        && other.dependents@[e].1@.len() > 0;
                    other.lemma_entry_at(e);
                }
                if other.dependents_of(n).len() > 0 {
                    assert(other.has_entry(n));
                    let e = choose|e: int| 0 <= e < len && other.dependents@[e].0@ == n;
                    other.lemma_entry_at(e);
                }
            }
            DependencyGraph::lemma_merge_totals(g0, *other, g);
        }
    }
}

} // verus!
