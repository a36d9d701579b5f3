//! Bringing the task and component maps in line with the tree of paths:
//! the maps of directories that are gone are dropped, those of changed or
//! new directories are scanned again, and each map takes what the `mod.rs`
//! file of its directory declares.
//!
//! Whether a path is a directory, and what a file declares, are asked of the
//! caller. What each answer was is recorded, in the order the questions are
//! asked, and the contracts state the result for those answers.

use vstd::prelude::*;
use crate::build::directory::{same_path, paths_equal};
use crate::build::paths::{last_component, path_last_component, ModifiedState, PathMap};

verus! {

/// A question asked while scanning, with its answer: whether a path is a
/// directory, or what the file at a path declares.
pub enum Probe<T> {
    Dir(Seq<char>, bool),
    Found(Seq<char>, Seq<T>),
}

/// The path ends in a file named `mod.rs`.
pub open spec fn is_mod_file(p: Seq<char>) -> bool {
    last_component(p) == Some("mod.rs"@)
}

/// A map of a source directory: its path, the maps of its subdirectories,
/// and what its `mod.rs` file declares.
pub struct MapView<T> {
    pub path: Seq<char>,
    pub subs: Seq<MapView<T>>,
    pub items: Seq<T>,
}

/// The answers to the directory questions about `subs`, read from the
/// front of the tape, with the rest of the tape; none where the tape does
/// not ask them in that order.
pub open spec fn dir_answers<T>(subs: Seq<PathMap>, tape: Seq<Probe<T>>) -> Option<(Seq<bool>, Seq<Probe<T>>)>
    decreases subs.len(),
{
    if subs.len() == 0 {
        Some((Seq::empty(), tape))
    } else {
        match dir_answers(subs.drop_last(), tape) {
            Some((a, rest)) => if rest.len() > 0 && (rest[0] matches Probe::Dir(p, b) && p == subs.last().path@) {
                Some((a.push(rest[0]->Dir_1), rest.drop_first()))
            } else {
                None
            },
            None => None,
        }
    }
}

/// The index of the `mod.rs` file among `subs`: the last entry that is not
/// a directory and is named `mod.rs`.
pub open spec fn mod_file(subs: Seq<PathMap>, dirs: Seq<bool>) -> Option<int>
    decreases subs.len(),
{
    if subs.len() == 0 || dirs.len() != subs.len() {
        None
    } else if !dirs.last() && is_mod_file(subs.last().path@) {
        Some(subs.len() - 1)
    } else {
        mod_file(subs.drop_last(), dirs.drop_last())
    }
}

/// The first of `maps` with the path `p`.
pub open spec fn first_map<T>(maps: Seq<MapView<T>>, p: Seq<char>) -> Option<int> {
    if exists|i: int| 0 <= i < maps.len() && same_path(maps[i].path, p) {
        Some(choose|i: int| 0 <= i < maps.len() && same_path(maps[i].path, p)
            && forall|j: int| 0 <= j < i ==> !same_path(maps[j].path, p))
    } else {
        None
    }
}

/// Whether some directory among `subs` has the path `p`.
pub open spec fn visited(subs: Seq<PathMap>, dirs: Seq<bool>, p: Seq<char>) -> bool {
    exists|k: int| 0 <= k < subs.len() && k < dirs.len() && dirs[k] && same_path(subs[k].path@, p)
}

/// The maps of `maps`, in order, whose path is that of a directory among
/// `subs`.
pub open spec fn kept_maps<T>(maps: Seq<MapView<T>>, subs: Seq<PathMap>, dirs: Seq<bool>) -> Seq<MapView<T>>
    decreases maps.len(),
{
    if maps.len() == 0 {
        maps
    } else {
        let rest = kept_maps(maps.drop_last(), subs, dirs);
        if visited(subs, dirs, maps.last().path) {
            rest.push(maps.last())
        } else {
            rest
        }
    }
}

/// Scanning the map `old` of the path map `pm` with the answers at the
/// front of the tape: the new map and the rest of the tape; none where the
/// tape does not ask the questions the scan asks. First each entry of `pm`
/// is asked whether it is a directory. Then, directory after directory, the
/// first map with its path is scanned again if the directory changed, and a
/// directory without a map gets a new map, scanned. The maps of paths that
/// are not directories of `pm` are dropped. Last, the `mod.rs` file is asked
/// what it declares; without one, the map declares nothing.
pub open spec fn scan_spec<T>(pm: PathMap, old: MapView<T>, tape: Seq<Probe<T>>) -> Option<(MapView<T>, Seq<Probe<T>>)>
    decreases pm, 2nat,
{
    match dir_answers(pm.sub_maps@, tape) {
        None => None,
        Some((dirs, t0)) => {
            match fold_dirs(pm, dirs, old.subs, t0, pm.sub_maps@.len() as int) {
                None => None,
                Some((maps, t1)) => {
                    let subs = kept_maps(maps, pm.sub_maps@, dirs);
                    match mod_file(pm.sub_maps@, dirs) {
                        None => Some((MapView { path: old.path, subs, items: Seq::empty() }, t1)),
                        Some(f) => if t1.len() > 0 && (t1[0] matches Probe::Found(q, items) && q == pm.sub_maps@[f].path@) {
                            Some((MapView { path: old.path, subs, items: t1[0]->Found_1 }, t1.drop_first()))
                        } else {
                            None
                        },
                    }
                },
            }
        },
    }
}

/// The maps after going through the first `k` entries of `pm`, with the
/// rest of the tape.
pub open spec fn fold_dirs<T>(pm: PathMap, dirs: Seq<bool>, maps: Seq<MapView<T>>, tape: Seq<Probe<T>>, k: int) -> Option<(Seq<MapView<T>>, Seq<Probe<T>>)>
    decreases pm, 1nat, k,
{
    if k <= 0 || k > pm.sub_maps@.len() || dirs.len() != pm.sub_maps@.len() {
        Some((maps, tape))
    } else {
        match fold_dirs(pm, dirs, maps, tape, k - 1) {
            None => None,
            Some((before, t)) => {
                let d = pm.sub_maps@[k - 1];
                if !dirs[k - 1] {
                    Some((before, t))
                } else {
                    match first_map(before, d.path@) {
                        Some(i) => if d.modified_state == ModifiedState::Changed {
                            match scan_spec(d, before[i], t) {
                                Some((x, t2)) => Some((before.update(i, x), t2)),
                                None => None,
                            }
                        } else {
                            Some((before, t))
                        },
                        None => match scan_spec(d, MapView { path: d.path@, subs: Seq::empty(), items: Seq::empty() }, t) {
                            Some((x, t2)) => Some((before.push(x), t2)),
                            None => None,
                        },
                    }
                }
            },
        }
    }
}

/// A directory that is not new and did not change leaves the maps as they
/// were.
pub(crate) proof fn lemma_fold_unchanged<T>(pm: PathMap, dirs: Seq<bool>, maps: Seq<MapView<T>>, tape: Seq<Probe<T>>, k: int,
    before: Seq<MapView<T>>, t: Seq<Probe<T>>)
    requires
        0 <= k < pm.sub_maps@.len(),
        dirs.len() == pm.sub_maps@.len(),
        dirs[k],
        fold_dirs(pm, dirs, maps, tape, k) == Some((before, t)),
        first_map(before, pm.sub_maps@[k].path@) is Some,
        pm.sub_maps@[k].modified_state != ModifiedState::Changed,
    ensures
        fold_dirs(pm, dirs, maps, tape, k + 1) == Some((before, t)),
{
    assert(k + 1 - 1 == k);
}

/// A directory without a map gets a new one, scanned.
pub(crate) proof fn lemma_fold_new<T>(pm: PathMap, dirs: Seq<bool>, maps: Seq<MapView<T>>, tape: Seq<Probe<T>>, k: int,
    before: Seq<MapView<T>>, t: Seq<Probe<T>>, x: MapView<T>, t2: Seq<Probe<T>>)
    requires
        0 <= k < pm.sub_maps@.len(),
        dirs.len() == pm.sub_maps@.len(),
        dirs[k],
        fold_dirs(pm, dirs, maps, tape, k) == Some((before, t)),
        first_map(before, pm.sub_maps@[k].path@) is None,
        scan_spec(pm.sub_maps@[k], MapView { path: pm.sub_maps@[k].path@, subs: Seq::empty(), items: Seq::empty() }, t)
            == Some((x, t2)),
    ensures
        fold_dirs(pm, dirs, maps, tape, k + 1) == Some((before.push(x), t2)),
{
    assert(k + 1 - 1 == k);
}

/// The probe asks whether a path is a directory, and the answer is one that
/// `is_dir` gave for the path.
pub open spec fn genuine_dir_probe<F: Fn(&String) -> bool, T>(is_dir: F, p: Probe<T>) -> bool {
    match p {
        Probe::Dir(q, b) => exists|s: String| s@ == q && call_ensures(is_dir, (&s,), b),
        Probe::Found(..) => false,
    }
}

/// Whether the path ends in a file named `mod.rs`.
pub(crate) fn mod_file_at(p: &String) -> (r: bool)
    ensures
        r == is_mod_file(p@),
{
    match path_last_component(p.as_str()) {
        Some(c) => {
            let m = "mod.rs".to_string();
            c == m
        },
        None => false,
    }
}

/// Whether some directory among `subs` has the path `p`.
pub(crate) fn visited_exec(subs: &Vec<PathMap>, dirs: &Vec<bool>, p: &String) -> (r: bool)
    requires
        dirs@.len() == subs@.len(),
    ensures
        r == visited(subs@, dirs@, p@),
{
    let mut k: usize = 0;
    while k < subs.len()
        invariant
            k <= subs@.len(),
            dirs@.len() == subs@.len(),
            forall|j: int| 0 <= j < k ==> !(dirs@[j] && same_path(subs@[j].path@, p@)),
        decreases subs@.len() - k,
    {
        if dirs[k] && paths_equal(subs[k].path.as_str(), p.as_str()) {
            return true;
        }
        k = k + 1;
    }
    false
}

/// Asks of each entry of `pm` whether it is a directory.
pub(crate) fn ask_dirs<F: Fn(&String) -> bool, T>(pm: &PathMap, is_dir: &F) -> (r: (Vec<bool>, Ghost<Seq<Probe<T>>>))
    requires
        forall|s: &String| call_requires(*is_dir, (s,)),
    ensures
        r.0@.len() == pm.sub_maps@.len(),
        forall|rest: Seq<Probe<T>>| #[trigger] dir_answers(pm.sub_maps@, r.1@ + rest) == Some((r.0@, rest)),
        forall|j: int| 0 <= j < r.1@.len() ==> genuine_dir_probe(*is_dir, #[trigger] r.1@[j]),
{
    let ghost subs = pm.sub_maps@;
    let mut dirs: Vec<bool> = Vec::new();
    let ghost mut seg: Seq<Probe<T>> = Seq::empty();
    let mut k: usize = 0;
    proof {
        assert forall|rest: Seq<Probe<T>>| #[trigger] dir_answers(subs.take(0), seg + rest) == Some((dirs@, rest)) by {
            assert(subs.take(0).len() == 0);
            assert(seg + rest =~= rest);
        }
    }
    while k < pm.sub_maps.len()
        invariant
            k <= subs.len(),
            subs == pm.sub_maps@,
            dirs@.len() == k,
            forall|s: &String| call_requires(*is_dir, (s,)),
            forall|rest: Seq<Probe<T>>| #[trigger] dir_answers(subs.take(k as int), seg + rest) == Some((dirs@, rest)),
            forall|j: int| 0 <= j < seg.len() ==> genuine_dir_probe(*is_dir, #[trigger] seg[j]),
        decreases subs.len() - k,
    {
        let b = is_dir(&pm.sub_maps[k].path);
        let ghost probe = Probe::<T>::Dir(subs[k as int].path@, b);
        let ghost d0 = dirs@;
        dirs.push(b);
        proof {
            let s0 = seg;
            seg = seg.push(probe);
            assert(genuine_dir_probe(*is_dir, probe));
            assert forall|j: int| 0 <= j < seg.len() implies genuine_dir_probe(*is_dir, #[trigger] seg[j]) by {
                if j < s0.len() {
                    assert(seg[j] == s0[j]);
                }
            }
            assert forall|rest: Seq<Probe<T>>| #[trigger] dir_answers(subs.take(k + 1), seg + rest) == Some((dirs@, rest)) by {
                let t = subs.take(k + 1);
                assert(t.drop_last() =~= subs.take(k as int));
                assert(t.last() == subs[k as int]);
                let r2 = seq![probe] + rest;
                assert(seg + rest =~= s0 + r2);
                assert(dir_answers(subs.take(k as int), s0 + r2) == Some((d0, r2)));
                assert(r2[0] == probe);
                assert(r2.drop_first() =~= rest);
            }
        }
        k = k + 1;
    }
    assert(subs.take(k as int) =~= subs);
    (dirs, Ghost(seg))
}

} // verus!
