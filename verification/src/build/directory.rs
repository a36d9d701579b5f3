//! Bringing the tree of paths in line with the directories on disk: which
//! entries changed since the last scan, which are new, and which are gone.
//! The caller reads the directories; the merge is here.

use vstd::prelude::*;
use crate::build::paths::{ModifiedState, ModifiedTime, PathMap, marked};

verus! {

/// Whether two paths name the same path, compared component by component
/// as `std::path::Path`'s `==` does.
pub uninterp spec fn same_path(a: Seq<char>, b: Seq<char>) -> bool;

/// Compares `a` and `b` with `std::path::Path`'s `==`.
/// Trusted: the result is what `same_path` names for the two paths.
#[verifier::external_body]
pub(crate) fn paths_equal(a: &str, b: &str) -> (r: bool)
    ensures
        r == same_path(a@, b@),
{
    std::path::Path::new(a) == std::path::Path::new(b)
}

/// What was read of a path on disk: whether it is a directory that is
/// scanned, and if so its entries.
#[derive(Debug)]
pub struct DirTree {
    pub scanned: bool,
    pub entries: Vec<DirEntry>,
}

/// An entry of a scanned directory: its path, when it was modified, and
/// what was read below it.
#[derive(Debug)]
pub struct DirEntry {
    pub path: String,
    pub modified: ModifiedTime,
    pub tree: DirTree,
}

/// A tree of paths as a value.
pub struct PathView {
    pub path: Seq<char>,
    pub time: ModifiedTime,
    pub state: ModifiedState,
    pub subs: Seq<PathView>,
}

/// A path map as a value.
pub open spec fn pm_view(pm: PathMap) -> PathView
    decreases pm, 0nat,
{
    PathView {
        path: pm.path@,
        time: pm.modified_time,
        state: pm.modified_state,
        subs: pms_view(pm.sub_maps@),
    }
}

/// A list of path maps as values.
pub open spec fn pms_view(s: Seq<PathMap>) -> Seq<PathView>
    decreases s, 1nat,
{
    if s.len() == 0 {
        Seq::empty()
    } else {
        pms_view(s.drop_last()).push(pm_view(s.last()))
    }
}

/// `v` with every state set to `st`.
pub open spec fn marked_view(v: PathView, st: ModifiedState) -> PathView
    decreases v, 0nat,
{
    PathView { state: st, subs: marked_views(v.subs, st), ..v }
}

/// Each of `s` with every state set to `st`.
pub open spec fn marked_views(s: Seq<PathView>, st: ModifiedState) -> Seq<PathView>
    decreases s, 1nat,
{
    if s.len() == 0 {
        Seq::empty()
    } else {
        marked_views(s.drop_last(), st).push(marked_view(s.last(), st))
    }
}

/// The first of `subs` with the path `p`.
pub open spec fn first_same(subs: Seq<PathView>, p: Seq<char>) -> Option<int> {
    if exists|i: int| 0 <= i < subs.len() && same_path(subs[i].path, p) {
        Some(choose|i: int| 0 <= i < subs.len() && same_path(subs[i].path, p)
            && forall|j: int| 0 <= j < i ==> !same_path(subs[j].path, p))
    } else {
        None
    }
}

/// Whether some entry has the path `p`.
pub open spec fn among_entries(es: Seq<DirEntry>, p: Seq<char>) -> bool {
    exists|k: int| 0 <= k < es.len() && same_path(es[k].path@, p)
}

/// Some map of `subs` is marked changed.
pub open spec fn any_changed(subs: Seq<PathView>) -> bool {
    exists|i: int| 0 <= i < subs.len() && subs[i].state == ModifiedState::Changed
}

/// What scanning does with `v` given what was read of its path: for a
/// scanned directory, its entries merged into its sub-maps and the maps of
/// entries that are gone dropped; and for the start path, its state set to
/// changed where a sub-map changed and to unchanged otherwise.
pub open spec fn scan_view(v: PathView, t: DirTree, start: Seq<char>) -> PathView
    decreases t, 2nat,
{
    let v1 = if t.scanned {
        PathView { subs: kept_subs(fold_entries(v.subs, t.entries@, start), t.entries@), ..v }
    } else {
        v
    };
    if same_path(v1.path, start) {
        PathView { state: if any_changed(v1.subs) { ModifiedState::Changed } else { ModifiedState::Unchanged }, ..v1 }
    } else {
        v1
    }
}

/// The maps of `s`, in order, whose path is among the entries and that are
/// not marked removed.
pub open spec fn kept_subs(s: Seq<PathView>, es: Seq<DirEntry>) -> Seq<PathView>
    decreases s.len(),
{
    if s.len() == 0 {
        s
    } else {
        let rest = kept_subs(s.drop_last(), es);
        if among_entries(es, s.last().path) && s.last().state != ModifiedState::Removed {
            rest.push(s.last())
        } else {
            rest
        }
    }
}

/// Merging one entry into the sub-maps: an entry whose path a sub-map has
/// updates the first such sub-map (a new time marks it changed, the same
/// time marks it and all below it unchanged) and scans it; another entry
/// adds a new, changed map, and scans it.
pub open spec fn merge_step(before: Seq<PathView>, e: DirEntry, start: Seq<char>) -> Seq<PathView>
    decreases e, 0nat,
{
    match first_same(before, e.path@) {
        Some(i) => {
            let o = before[i];
            let o1 = if o.time != e.modified {
                PathView { time: e.modified, state: ModifiedState::Changed, ..o }
            } else {
                marked_view(o, ModifiedState::Unchanged)
            };
            before.update(i, scan_view(o1, e.tree, start))
        },
        None => before.push(scan_view(
            PathView { path: e.path@, time: e.modified, state: ModifiedState::Changed, subs: Seq::empty() },
            e.tree,
            start,
        )),
    }
}

/// The sub-maps after merging the entries one after another.
pub open spec fn fold_entries(subs: Seq<PathView>, es: Seq<DirEntry>, start: Seq<char>) -> Seq<PathView>
    decreases es, 1nat,
{
    if es.len() == 0 {
        subs
    } else {
        merge_step(fold_entries(subs, es.drop_last(), start), es.last(), start)
    }
}


/// The view of a list is the list of views.
proof fn lemma_pms_view(s: Seq<PathMap>)
    ensures
        pms_view(s).len() == s.len(),
        forall|i: int| 0 <= i < s.len() ==> #[trigger] pms_view(s)[i] == pm_view(s[i]),
    decreases s.len(),
{
    if s.len() > 0 {
        lemma_pms_view(s.drop_last());
    }
}

/// Marking every state is marking the views.
proof fn lemma_marked_view(a: PathMap, b: PathMap, st: ModifiedState)
    requires
        marked(a, b, st),
    ensures
        pm_view(b) == marked_view(pm_view(a), st),
    decreases a, 0nat,
{
    lemma_marked_views(a.sub_maps@, b.sub_maps@, st);
}

proof fn lemma_marked_views(xs: Seq<PathMap>, ys: Seq<PathMap>, st: ModifiedState)
    requires
        xs.len() == ys.len(),
        forall|i: int| 0 <= i < xs.len() ==> marked(#[trigger] xs[i], ys[i], st),
    ensures
        pms_view(ys) == marked_views(pms_view(xs), st),
    decreases xs, 1nat,
{
    if xs.len() > 0 {
        let n = xs.len() - 1;
        assert(marked(xs[n], ys[n], st));
        lemma_marked_view(xs.last(), ys.last(), st);
        assert forall|i: int| 0 <= i < xs.drop_last().len() implies marked(#[trigger] xs.drop_last()[i], ys.drop_last()[i], st) by {
            assert(marked(xs[i], ys[i], st));
        }
        lemma_marked_views(xs.drop_last(), ys.drop_last(), st);
        let px = pms_view(xs);
        assert(px.drop_last() =~= pms_view(xs.drop_last()));
        assert(px.last() == pm_view(xs.last()));
    }
}

/// The first of `subs` with the path `p`.
fn find_same(subs: &Vec<PathMap>, p: &String) -> (r: Option<usize>)
    ensures
        match r {
            Some(i) => i < subs@.len() && first_same(pms_view(subs@), p@) == Some(i as int),
            None => first_same(pms_view(subs@), p@) is None,
        },
{
    proof {
        lemma_pms_view(subs@);
    }
    let ghost v = pms_view(subs@);
    let mut i: usize = 0;
    while i < subs.len()
        invariant
            i <= subs@.len(),
            v == pms_view(subs@),
            v.len() == subs@.len(),
            forall|k: int| 0 <= k < subs@.len() ==> #[trigger] v[k] == pm_view(subs@[k]),
            forall|j: int| 0 <= j < i ==> !same_path(v[j].path, p@),
        decreases subs@.len() - i,
    {
        if paths_equal(subs[i].path.as_str(), p.as_str()) {
            proof {
                assert(same_path(v[i as int].path, p@));
                let k = choose|k: int| 0 <= k < v.len() && same_path(v[k].path, p@)
                    && forall|j: int| 0 <= j < k ==> !same_path(v[j].path, p@);
                if k < i {
                    assert(!same_path(v[k].path, p@));
                }
                if i < k {
                    assert(!same_path(v[i as int].path, p@));
                }
            }
            return Some(i);
        }
        i = i + 1;
    }
    None
}

/// Whether some entry has the path `p`.
fn in_entries(es: &Vec<DirEntry>, p: &String) -> (r: bool)
    ensures
        r == among_entries(es@, p@),
{
    let mut k: usize = 0;
    while k < es.len()
        invariant
            k <= es@.len(),
            forall|j: int| 0 <= j < k ==> !same_path(es@[j].path@, p@),
        decreases es@.len() - k,
    {
        if paths_equal(es[k].path.as_str(), p.as_str()) {
            return true;
        }
        k = k + 1;
    }
    false
}

/// Replacing one map replaces its view.
proof fn lemma_pms_replace(s: Seq<PathMap>, i: int, x: PathMap)
    requires
        0 <= i < s.len(),
    ensures
        pms_view(s.remove(i).insert(i, x)) == pms_view(s).update(i, pm_view(x)),
        pms_view(s)[i] == pm_view(s[i]),
{
    let t = s.remove(i).insert(i, x);
    lemma_pms_view(s);
    lemma_pms_view(t);
    assert(t =~= s.update(i, x));
    assert(pms_view(t) =~= pms_view(s).update(i, pm_view(x)));
}

/// Appending a map appends its view.
proof fn lemma_pms_push(s: Seq<PathMap>, x: PathMap)
    ensures
        pms_view(s.push(x)) == pms_view(s).push(pm_view(x)),
{
    assert(s.push(x).drop_last() =~= s);
}

/// Merges the entry `e` into `subs`, as `merge_step` says.
fn merge_entry(subs: Vec<PathMap>, e: &DirEntry, start: &str) -> (r: Vec<PathMap>)
    ensures
        pms_view(r@) == merge_step(pms_view(subs@), *e, start@),
    decreases e, 0nat,
{
    let mut subs = subs;
    let ghost s0 = subs@;
    let ghost before = pms_view(subs@);
    match find_same(&subs, &e.path) {
        Some(i) => {
            proof {
                lemma_pms_view(s0);
            }
            let o = subs.remove(i);
            assert(pm_view(o) == before[i as int]);
            let o1 = refresh(o, e.modified);
            let o2 = scan_map(o1, &e.tree, start);
            subs.insert(i, o2);
            proof {
                lemma_pms_replace(s0, i as int, o2);
            }
        },
        None => {
            let fresh = PathMap {
                path: e.path.clone(),
                modified_time: e.modified,
                modified_state: ModifiedState::Changed,
                sub_maps: Vec::new(),
            };
            assert(pms_view(fresh.sub_maps@) =~= Seq::<PathView>::empty());
            let scanned = scan_map(fresh, &e.tree, start);
            subs.push(scanned);
            proof {
                lemma_pms_push(s0, scanned);
            }
        },
    }
    subs
}

/// A map met again: a new time marks it changed; the same time marks it and
/// everything below it unchanged.
fn refresh(o: PathMap, t: ModifiedTime) -> (r: PathMap)
    ensures
        pm_view(r) == if pm_view(o).time != t {
            PathView { time: t, state: ModifiedState::Changed, ..pm_view(o) }
        } else {
            marked_view(pm_view(o), ModifiedState::Unchanged)
        },
{
    let mut o = o;
    if o.modified_time != t {
        o.modified_time = t;
        o.modified_state = ModifiedState::Changed;
    } else {
        let ghost o_before = o;
        o.none();
        proof {
            lemma_marked_view(o_before, o, ModifiedState::Unchanged);
        }
    }
    o
}

/// The maps of `subs` whose path is among the entries and that are not
/// marked removed.
fn keep_present(subs: Vec<PathMap>, es: &Vec<DirEntry>) -> (r: Vec<PathMap>)
    ensures
        pms_view(r@) == kept_subs(pms_view(subs@), es@),
{
    let ghost all = subs@;
    let mut kept: Vec<PathMap> = Vec::new();
    assert(pms_view(kept@) =~= kept_subs(pms_view(all.take(0)), es@));
    for x in it: subs.into_iter()
        invariant
            it.seq() == all,
            pms_view(kept@) == kept_subs(pms_view(all.take(it.index() as int)), es@),
    {
        let ghost j = it.index() as int;
        let ghost b = kept@;
        let ghost pv = pms_view(all.take(j + 1));
        proof {
            assert(all.take(j + 1).drop_last() =~= all.take(j));
            assert(all.take(j + 1).last() == x);
            assert(pv.drop_last() =~= pms_view(all.take(j)));
            assert(pv.last() == pm_view(x));
        }
        if in_entries(es, &x.path) && x.modified_state != ModifiedState::Removed {
            kept.push(x);
            proof {
                assert(kept@.drop_last() =~= b);
            }
        }
    }
    assert(all.take(all.len() as int) =~= all);
    kept
}

/// Scans `pm` as `scan_view` says.
fn scan_map(pm: PathMap, tree: &DirTree, start: &str) -> (r: PathMap)
    ensures
        pm_view(r) == scan_view(pm_view(pm), *tree, start@),
    decreases tree, 2nat,
{
    let ghost v0 = pm_view(pm);
    let PathMap { path, modified_time, modified_state, sub_maps } = pm;
    assert(v0 == PathView { path: path@, time: modified_time, state: modified_state, subs: pms_view(sub_maps@) });
    let mut subs = sub_maps;
    let ghost es = tree.entries@;
    if tree.scanned {
        let mut k: usize = 0;
        assert(es.take(0) =~= Seq::<DirEntry>::empty());
        assert(decreases_to!(tree => tree.entries));
        while k < tree.entries.len()
            invariant
                k <= es.len(),
                es == tree.entries@,
                pms_view(subs@) == fold_entries(v0.subs, es.take(k as int), start@),
                forall|j: int| 0 <= j < es.len() ==> decreases_to!(tree => #[trigger] es[j]),
            decreases es.len() - k,
        {
            proof {
                assert(es.take(k + 1).drop_last() =~= es.take(k as int));
                assert(es.take(k + 1).last() == es[k as int]);
            }
            subs = merge_entry(subs, &tree.entries[k], start);
            k = k + 1;
        }
        assert(es.take(k as int) =~= es);
        subs = keep_present(subs, &tree.entries);
    }
    let ghost v1 = PathView { path: path@, time: modified_time, state: modified_state, subs: pms_view(subs@) };
    assert(v1 == if tree.scanned {
        PathView { subs: kept_subs(fold_entries(v0.subs, tree.entries@, start@), tree.entries@), ..v0 }
    } else {
        v0
    });
    let mut state = modified_state;
    if paths_equal(path.as_str(), start) {
        proof {
            lemma_pms_view(subs@);
        }
        let mut changed = false;
        let mut i: usize = 0;
        while i < subs.len()
            invariant
                i <= subs@.len(),
                pms_view(subs@).len() == subs@.len(),
                forall|k: int| 0 <= k < subs@.len() ==> #[trigger] pms_view(subs@)[k] == pm_view(subs@[k]),
                changed == exists|j: int| 0 <= j < i && pms_view(subs@)[j].state == ModifiedState::Changed,
            decreases subs@.len() - i,
        {
            if subs[i].modified_state == ModifiedState::Changed {
                changed = true;
            }
            proof {
                assert(pms_view(subs@)[i as int] == pm_view(subs@[i as int]));
            }
            i = i + 1;
        }
        state = if changed { ModifiedState::Changed } else { ModifiedState::Unchanged };
        assert(changed == any_changed(pms_view(subs@)));
    }
    let r = PathMap { path, modified_time, modified_state: state, sub_maps: subs };
    assert(pm_view(r) == PathView { state: state, ..v1 });
    r
}

/// Brings `path_map` in line with what was read of its path: for a scanned
/// directory, each entry's map is updated or added and scanned, and the maps
/// of entries that are gone are dropped; the map of `start_path` ends
/// changed when one of its sub-maps did, and unchanged otherwise.
pub fn scan_directory(path_map: &mut PathMap, tree: &DirTree, start_path: &str)
    ensures
        pm_view(*final(path_map)) == scan_view(pm_view(*old(path_map)), *tree, start_path@),
{
    let mut pm = PathMap {
        path: String::new(),
        modified_time: ModifiedTime { secs: 0, nanos: 0 },
        modified_state: ModifiedState::Unchanged,
        sub_maps: Vec::new(),
    };
    std::mem::swap(&mut pm, path_map);
    *path_map = scan_map(pm, tree, start_path);
}

} // verus!
