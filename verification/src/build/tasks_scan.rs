//! Scanning the task maps: what `scan_spec` states, carried out on
//! `TaskMap` values.

use vstd::prelude::*;
use crate::build::directory::{same_path, paths_equal};
use crate::build::paths::{ModifiedState, PathMap};
use crate::build::scanning::{
    Probe, MapView, dir_answers, mod_file, first_map, kept_maps, scan_spec, fold_dirs, genuine_dir_probe,
    mod_file_at, visited_exec, ask_dirs, lemma_fold_unchanged, lemma_fold_new,
};
use crate::build::tasks::{Task, TaskMap};

verus! {

/// A task map as a value.
pub open spec fn task_map_view(tm: TaskMap) -> MapView<Task>
    decreases tm, 0nat,
{
    MapView { path: tm.path@, subs: task_maps_view(tm.sub_maps@), items: tm.tasks@ }
}

/// A list of task maps as values.
pub open spec fn task_maps_view(s: Seq<TaskMap>) -> Seq<MapView<Task>>
    decreases s, 1nat,
{
    if s.len() == 0 {
        Seq::empty()
    } else {
        task_maps_view(s.drop_last()).push(task_map_view(s.last()))
    }
}

proof fn lemma_task_maps_view(s: Seq<TaskMap>)
    ensures
        task_maps_view(s).len() == s.len(),
        forall|i: int| 0 <= i < s.len() ==> #[trigger] task_maps_view(s)[i] == task_map_view(s[i]),
    decreases s.len(),
{
    if s.len() > 0 {
        lemma_task_maps_view(s.drop_last());
    }
}

/// The answer on a probe is one the caller's function gave for its path.
pub open spec fn genuine_task_probe<F: Fn(&String) -> bool, G: Fn(&String) -> Vec<Task>>(is_dir: F, find: G, p: Probe<Task>) -> bool {
    match p {
        Probe::Dir(..) => genuine_dir_probe(is_dir, p),
        Probe::Found(q, items) => exists|s: String, v: Vec<Task>| s@ == q && v@ == items && call_ensures(find, (&s,), v),
    }
}

/// The first of `maps` with the path `p`.
fn first_task_map(maps: &Vec<TaskMap>, p: &String) -> (r: Option<usize>)
    ensures
        match r {
            Some(i) => i < maps@.len() && first_map(task_maps_view(maps@), p@) == Some(i as int),
            None => first_map(task_maps_view(maps@), p@) is None,
        },
{
    proof {
        lemma_task_maps_view(maps@);
    }
    let ghost v = task_maps_view(maps@);
    let mut i: usize = 0;
    while i < maps.len()
        invariant
            i <= maps@.len(),
            v == task_maps_view(maps@),
            v.len() == maps@.len(),
            forall|k: int| 0 <= k < maps@.len() ==> #[trigger] v[k] == task_map_view(maps@[k]),
            forall|j: int| 0 <= j < i ==> !same_path(v[j].path, p@),
        decreases maps@.len() - i,
    {
        if paths_equal(maps[i].path.as_str(), p.as_str()) {
            proof {
                assert(same_path(v[i as int].path, p@));
                let k = choose|k: int| 0 <= k < v.len() && same_path(v[k].path, p@)
                    && forall|j: int| 0 <= j < k ==> !same_path(v[j].path, p@);
                if k < i {
                    assert(!same_path(v[k].path, p@));
                }
                if i < k {
                    assert(!same_path(v[i as int].path, p@));
                }
            }
            return Some(i);
        }
        i = i + 1;
    }
    None
}

/// Replacing one map replaces its view.
proof fn lemma_task_maps_replace(s: Seq<TaskMap>, i: int, x: TaskMap)
    requires
        0 <= i < s.len(),
    ensures
        task_maps_view(s.remove(i).insert(i, x)) == task_maps_view(s).update(i, task_map_view(x)),
        task_maps_view(s)[i] == task_map_view(s[i]),
{
    let t = s.remove(i).insert(i, x);
    lemma_task_maps_view(s);
    lemma_task_maps_view(t);
    assert(t =~= s.update(i, x));
    assert(task_maps_view(t) =~= task_maps_view(s).update(i, task_map_view(x)));
}

/// The maps whose path is that of a directory among `subs`.
fn keep_visited_tasks(maps: Vec<TaskMap>, subs: &Vec<PathMap>, dirs: &Vec<bool>) -> (r: Vec<TaskMap>)
    requires
        dirs@.len() == subs@.len(),
    ensures
        task_maps_view(r@) == kept_maps(task_maps_view(maps@), subs@, dirs@),
{
    let ghost all = maps@;
    let mut kept: Vec<TaskMap> = Vec::new();
    assert(task_maps_view(kept@) =~= kept_maps(task_maps_view(all.take(0)), subs@, dirs@));
    for x in it: maps.into_iter()
        invariant
            it.seq() == all,
            dirs@.len() == subs@.len(),
            task_maps_view(kept@) == kept_maps(task_maps_view(all.take(it.index() as int)), subs@, dirs@),
    {
        let ghost j = it.index() as int;
        let ghost b = kept@;
        let ghost pv = task_maps_view(all.take(j + 1));
        proof {
            assert(all.take(j + 1).drop_last() =~= all.take(j));
            assert(all.take(j + 1).last() == x);
            assert(pv.drop_last() =~= task_maps_view(all.take(j)));
            assert(pv.last() == task_map_view(x));
        }
        if visited_exec(subs, dirs, &x.path) {
            kept.push(x);
            proof {
                assert(kept@.drop_last() =~= b);
            }
        }
    }
    assert(all.take(all.len() as int) =~= all);
    kept
}

/// Scans the task map `old` of the path map `pm`, as `scan_spec` says for
/// the answers it got.
fn scan_task_map<F: Fn(&String) -> bool, G: Fn(&String) -> Vec<Task>>(pm: &PathMap, old: TaskMap, is_dir: &F, find: &G)
    -> (r: (TaskMap, Ghost<Seq<Probe<Task>>>))
    requires
        forall|s: &String| call_requires(*is_dir, (s,)),
        forall|s: &String| call_requires(*find, (s,)),
    ensures
        forall|rest: Seq<Probe<Task>>| #[trigger] scan_spec(*pm, task_map_view(old), r.1@ + rest) == Some((task_map_view(r.0), rest)),
        forall|j: int| 0 <= j < r.1@.len() ==> genuine_task_probe(*is_dir, *find, #[trigger] r.1@[j]),
    decreases pm,
{
    let ghost ov = task_map_view(old);
    let ghost subs = pm.sub_maps@;
    let (dirs, Ghost(seg1)) = ask_dirs::<F, Task>(pm, is_dir);
    let TaskMap { path, sub_maps, tasks: _ } = old;
    let mut maps = sub_maps;
    let ghost mut fseg: Seq<Probe<Task>> = Seq::empty();
    let mut k: usize = 0;
    proof {
        assert forall|rest: Seq<Probe<Task>>| #[trigger] fold_dirs(*pm, dirs@, ov.subs, fseg + rest, 0) == Some((task_maps_view(maps@), rest)) by {
            assert(fseg + rest =~= rest);
        }
        assert(forall|j: int| 0 <= j < subs.len() ==> decreases_to!(*pm => #[trigger] subs[j]));
    }
    while k < pm.sub_maps.len()
        invariant
            k <= subs.len(),
            subs == pm.sub_maps@,
            dirs@.len() == subs.len(),
            ov.subs == task_maps_view(sub_maps@),
            forall|s: &String| call_requires(*is_dir, (s,)),
            forall|s: &String| call_requires(*find, (s,)),
            forall|rest: Seq<Probe<Task>>| #[trigger] fold_dirs(*pm, dirs@, ov.subs, fseg + rest, k as int) == Some((task_maps_view(maps@), rest)),
            forall|j: int| 0 <= j < fseg.len() ==> genuine_task_probe(*is_dir, *find, #[trigger] fseg[j]),
            forall|j: int| 0 <= j < subs.len() ==> decreases_to!(*pm => #[trigger] subs[j]),
        decreases subs.len() - k,
    {
        let ghost before = task_maps_view(maps@);
        let ghost f0 = fseg;
        let d = &pm.sub_maps[k];
        assert(decreases_to!(*pm => subs[k as int]));
        if dirs[k] {
            match first_task_map(&maps, &d.path) {
                Some(i) => {
                    if d.modified_state == ModifiedState::Changed {
                        let ghost m0 = maps@;
                        let m = maps.remove(i);
                        proof {
                            lemma_task_maps_view(m0);
                        }
                        let (x, Ghost(cseg)) = scan_task_map(d, m, is_dir, find);
                        maps.insert(i, x);
                        proof {
                            lemma_task_maps_replace(m0, i as int, x);
                            fseg = f0 + cseg;
                            assert forall|j: int| 0 <= j < fseg.len() implies genuine_task_probe(*is_dir, *find, #[trigger] fseg[j]) by {
                                if j < f0.len() {
                                    assert(fseg[j] == f0[j]);
                                } else {
                                    assert(fseg[j] == cseg[j - f0.len()]);
                                }
                            }
                            assert forall|rest: Seq<Probe<Task>>| #[trigger] fold_dirs(*pm, dirs@, ov.subs, fseg + rest, k + 1) == Some((task_maps_view(maps@), rest)) by {
                                assert(fseg + rest =~= f0 + (cseg + rest));
                                assert(fold_dirs(*pm, dirs@, ov.subs, f0 + (cseg + rest), k as int) == Some((before, cseg + rest)));
                                assert(scan_spec(subs[k as int], before[i as int], cseg + rest) == Some((task_map_view(x), rest)));
                            }
                        }
                    } else {
                        proof {
                            assert(first_map(before, subs[k as int].path@) == Some(i as int));
                            assert forall|rest: Seq<Probe<Task>>| #[trigger] fold_dirs(*pm, dirs@, ov.subs, fseg + rest, k + 1) == Some((task_maps_view(maps@), rest)) by {
                                lemma_fold_unchanged(*pm, dirs@, ov.subs, fseg + rest, k as int, before, rest);
                            }
                        }
                    }
                },
                None => {
                    let fresh = TaskMap { path: d.path.clone(), sub_maps: Vec::new(), tasks: Vec::new() };
                    assert(task_maps_view(fresh.sub_maps@) =~= Seq::<MapView<Task>>::empty());
                    assert(task_map_view(fresh) == MapView::<Task> { path: d.path@, subs: Seq::empty(), items: Seq::empty() });
                    let (x, Ghost(cseg)) = scan_task_map(d, fresh, is_dir, find);
                    let ghost m0 = maps@;
                    maps.push(x);
                    proof {
                        assert(maps@.drop_last() =~= m0);
                        fseg = f0 + cseg;
                        assert forall|j: int| 0 <= j < fseg.len() implies genuine_task_probe(*is_dir, *find, #[trigger] fseg[j]) by {
                            if j < f0.len() {
                                assert(fseg[j] == f0[j]);
                            } else {
                                assert(fseg[j] == cseg[j - f0.len()]);
                            }
                        }
                        assert(task_maps_view(maps@) == before.push(task_map_view(x)));
                        assert forall|rest: Seq<Probe<Task>>| #[trigger] fold_dirs(*pm, dirs@, ov.subs, fseg + rest, k + 1) == Some((task_maps_view(maps@), rest)) by {
                            assert(fseg + rest =~= f0 + (cseg + rest));
                            lemma_fold_new(*pm, dirs@, ov.subs, f0 + (cseg + rest), k as int, before, cseg + rest, task_map_view(x), rest);
                        }
                    }
                },
            }
        } else {
            proof {
                assert forall|rest: Seq<Probe<Task>>| #[trigger] fold_dirs(*pm, dirs@, ov.subs, fseg + rest, k + 1) == Some((task_maps_view(maps@), rest)) by {
                    assert(fold_dirs(*pm, dirs@, ov.subs, fseg + rest, k as int) == Some((before, rest)));
                }
            }
        }
        k = k + 1;
    }
    let ghost folded = task_maps_view(maps@);
    let kept = keep_visited_tasks(maps, &pm.sub_maps, &dirs);
    let mut found: Option<usize> = None;
    let mut j: usize = 0;
    assert(mod_file(subs.take(0), dirs@.take(0)) is None);
    while j < pm.sub_maps.len()
        invariant
            j <= subs.len(),
            subs == pm.sub_maps@,
            dirs@.len() == subs.len(),
            found is Some <==> mod_file(subs.take(j as int), dirs@.take(j as int)) is Some,
            found matches Some(f) ==> f < j && mod_file(subs.take(j as int), dirs@.take(j as int)) == Some(f as int),
        decreases subs.len() - j,
    {
        assert(subs.take(j + 1).drop_last() =~= subs.take(j as int));
        assert(dirs@.take(j + 1).drop_last() =~= dirs@.take(j as int));
        assert(subs.take(j + 1).last() == subs[j as int]);
        assert(dirs@.take(j + 1).last() == dirs@[j as int]);
        if !dirs[j] && mod_file_at(&pm.sub_maps[j].path) {
            found = Some(j);
        }
        j = j + 1;
    }
    assert(subs.take(j as int) =~= subs);
    assert(dirs@.take(j as int) =~= dirs@);
    match found {
        Some(f) => {
            let items = find(&pm.sub_maps[f].path);
            let ghost probe = Probe::<Task>::Found(subs[f as int].path@, items@);
            let r = TaskMap { path, sub_maps: kept, tasks: items };
            let ghost seg = seg1 + fseg + seq![probe];
            proof {
                assert(genuine_task_probe(*is_dir, *find, probe));
                assert forall|i: int| 0 <= i < seg.len() implies genuine_task_probe(*is_dir, *find, #[trigger] seg[i]) by {
                    if i < seg1.len() {
                        assert(seg[i] == seg1[i]);
                    } else if i < seg1.len() + fseg.len() {
                        assert(seg[i] == fseg[i - seg1.len()]);
                    } else {
                        assert(seg[i] == probe);
                    }
                }
                assert forall|rest: Seq<Probe<Task>>| #[trigger] scan_spec(*pm, ov, seg + rest) == Some((task_map_view(r), rest)) by {
                    let t0 = fseg + (seq![probe] + rest);
                    assert(seg + rest =~= seg1 + t0);
                    assert(dir_answers(subs, seg1 + t0) == Some((dirs@, t0)));
                    assert(fold_dirs(*pm, dirs@, ov.subs, fseg + (seq![probe] + rest), subs.len() as int)
                        == Some((folded, seq![probe] + rest)));
                    assert((seq![probe] + rest)[0] == probe);
                    assert((seq![probe] + rest).drop_first() =~= rest);
                }
            }
            (r, Ghost(seg))
        },
        None => {
            let r = TaskMap { path, sub_maps: kept, tasks: Vec::new() };
            let ghost seg = seg1 + fseg;
            proof {
                assert forall|i: int| 0 <= i < seg.len() implies genuine_task_probe(*is_dir, *find, #[trigger] seg[i]) by {
                    if i < seg1.len() {
                        assert(seg[i] == seg1[i]);
                    } else {
                        assert(seg[i] == fseg[i - seg1.len()]);
                    }
                }
                assert forall|rest: Seq<Probe<Task>>| #[trigger] scan_spec(*pm, ov, seg + rest) == Some((task_map_view(r), rest)) by {
                    let t0 = fseg + rest;
                    assert(seg + rest =~= seg1 + t0);
                    assert(dir_answers(subs, seg1 + t0) == Some((dirs@, t0)));
                    assert(fold_dirs(*pm, dirs@, ov.subs, fseg + rest, subs.len() as int) == Some((folded, rest)));
                    assert(r.tasks@ =~= Seq::<Task>::empty());
                }
            }
            (r, Ghost(seg))
        },
    }
}

/// Brings `task_map` in line with `path_map`: `is_dir` tells whether a path
/// is a directory, and `find` what the `mod.rs` file at a path declares.
/// The result is what `scan_spec` says for the answers they gave, in the
/// order they were asked.
pub fn scan_tasks<F: Fn(&String) -> bool, G: Fn(&String) -> Vec<Task>>(path_map: &PathMap, task_map: &mut TaskMap, is_dir: &F, find: &G)
    requires
        forall|s: &String| call_requires(*is_dir, (s,)),
        forall|s: &String| call_requires(*find, (s,)),
    ensures
        exists|tape: Seq<Probe<Task>>| {
            &&& forall|j: int| 0 <= j < tape.len() ==> genuine_task_probe(*is_dir, *find, #[trigger] tape[j])
            &&& scan_spec(*path_map, task_map_view(*old(task_map)), tape) == Some((task_map_view(*final(task_map)), Seq::<Probe<Task>>::empty()))
        },
{
    let mut tm = TaskMap { path: String::new(), sub_maps: Vec::new(), tasks: Vec::new() };
    std::mem::swap(&mut tm, task_map);
    let ghost ov = task_map_view(tm);
    let (r, Ghost(tape)) = scan_task_map(path_map, tm, is_dir, find);
    *task_map = r;
    proof {
        assert(tape + Seq::<Probe<Task>>::empty() =~= tape);
        assert(scan_spec(*path_map, ov, tape + Seq::<Probe<Task>>::empty()) == Some((task_map_view(r), Seq::<Probe<Task>>::empty())));
    }
}

} // verus!
