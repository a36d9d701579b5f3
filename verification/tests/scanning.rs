use corrosive::build::components::{ComponentMap, ComponentType};
use corrosive::build::components_scan::scan_components;
use corrosive::build::directory::{scan_directory, DirEntry, DirTree};
use corrosive::build::paths::{ModifiedState, ModifiedTime, PathMap};
use corrosive::build::tasks::{Task, TaskMap};
use corrosive::build::tasks_scan::scan_tasks;

fn s(x: &str) -> String {
    x.to_string()
}

fn time(secs: u64) -> ModifiedTime {
    ModifiedTime { secs, nanos: 0 }
}

fn leaf(path: &str, secs: u64, state: ModifiedState) -> PathMap {
    PathMap { path: s(path), modified_time: time(secs), modified_state: state, sub_maps: vec![] }
}

fn unread() -> DirTree {
    DirTree { scanned: false, entries: vec![] }
}

fn entry(path: &str, secs: u64, tree: DirTree) -> DirEntry {
    DirEntry { path: s(path), modified: time(secs), tree }
}

fn task_named(name: &str) -> Task {
    Task { name: s(name), inputs: vec![], outputs: vec![] }
}

fn task_names(tm: &TaskMap) -> Vec<String> {
    tm.tasks.iter().map(|t| t.name.clone()).collect()
}

#[test]
fn scan_directory_marks_new_changed_and_gone_entries() {
    let mut pm = PathMap {
        path: s("root"),
        modified_time: time(0),
        modified_state: ModifiedState::Unchanged,
        sub_maps: vec![
            leaf("root/a", 1, ModifiedState::Changed),
            leaf("root/b", 2, ModifiedState::Unchanged),
            leaf("root/d", 4, ModifiedState::Unchanged),
        ],
    };
    let tree = DirTree {
        scanned: true,
        entries: vec![entry("root/a", 1, unread()), entry("root/c", 5, unread()), entry("root/d", 7, unread())],
    };
    scan_directory(&mut pm, &tree, "root");
    let paths: Vec<String> = pm.sub_maps.iter().map(|m| m.path.clone()).collect();
    assert_eq!(paths, vec![s("root/a"), s("root/d"), s("root/c")]);
    assert_eq!(pm.sub_maps[0].modified_state, ModifiedState::Unchanged);
    assert_eq!(pm.sub_maps[0].modified_time, time(1));
    assert_eq!(pm.sub_maps[1].modified_state, ModifiedState::Changed);
    assert_eq!(pm.sub_maps[1].modified_time, time(7));
    assert_eq!(pm.sub_maps[2].modified_state, ModifiedState::Changed);
    assert_eq!(pm.sub_maps[2].modified_time, time(5));
    assert_eq!(pm.modified_state, ModifiedState::Changed);
}

#[test]
fn scan_directory_start_is_unchanged_when_nothing_changed() {
    let mut pm = PathMap {
        path: s("root"),
        modified_time: time(0),
        modified_state: ModifiedState::Changed,
        sub_maps: vec![leaf("root/a", 1, ModifiedState::Changed)],
    };
    let tree = DirTree { scanned: true, entries: vec![entry("root/a", 1, unread())] };
    scan_directory(&mut pm, &tree, "root");
    assert_eq!(pm.modified_state, ModifiedState::Unchanged);
    assert_eq!(pm.sub_maps.len(), 1);
}

#[test]
fn scan_directory_leaves_an_unread_path_alone() {
    let mut pm = PathMap {
        path: s("root"),
        modified_time: time(0),
        modified_state: ModifiedState::Changed,
        sub_maps: vec![leaf("root/a", 1, ModifiedState::Changed)],
    };
    scan_directory(&mut pm, &unread(), "elsewhere");
    assert_eq!(pm.modified_state, ModifiedState::Changed);
    assert_eq!(pm.sub_maps.len(), 1);
    assert_eq!(pm.sub_maps[0].modified_state, ModifiedState::Changed);
}

#[test]
fn scan_directory_descends_into_read_entries() {
    let mut pm = leaf("root", 0, ModifiedState::Unchanged);
    let tree = DirTree {
        scanned: true,
        entries: vec![entry("root/x", 3, DirTree { scanned: true, entries: vec![entry("root/x/mod.rs", 9, unread())] })],
    };
    scan_directory(&mut pm, &tree, "root");
    assert_eq!(pm.sub_maps.len(), 1);
    assert_eq!(pm.sub_maps[0].sub_maps.len(), 1);
    assert_eq!(pm.sub_maps[0].sub_maps[0].path, s("root/x/mod.rs"));
    assert_eq!(pm.sub_maps[0].sub_maps[0].modified_state, ModifiedState::Changed);
}

fn source_tree() -> PathMap {
    PathMap {
        path: s("root"),
        modified_time: time(0),
        modified_state: ModifiedState::Changed,
        sub_maps: vec![
            PathMap {
                path: s("root/x"),
                modified_time: time(1),
                modified_state: ModifiedState::Changed,
                sub_maps: vec![leaf("root/x/mod.rs", 1, ModifiedState::Changed)],
            },
            PathMap {
                path: s("root/y"),
                modified_time: time(1),
                modified_state: ModifiedState::Unchanged,
                sub_maps: vec![leaf("root/y/mod.rs", 1, ModifiedState::Unchanged)],
            },
            leaf("root/lib.rs", 1, ModifiedState::Changed),
            leaf("root/mod.rs", 1, ModifiedState::Changed),
        ],
    }
}

fn is_directory(p: &String) -> bool {
    p == "root/x" || p == "root/y"
}

#[test]
fn scan_tasks_rescans_changed_and_new_directories() {
    let pm = source_tree();
    let mut tm = TaskMap {
        path: s("root"),
        sub_maps: vec![
            TaskMap { path: s("root/gone"), sub_maps: vec![], tasks: vec![task_named("old_gone")] },
            TaskMap { path: s("root/y"), sub_maps: vec![], tasks: vec![task_named("kept")] },
        ],
        tasks: vec![task_named("stale")],
    };
    let find = |p: &String| vec![task_named(&format!("in {}", p))];
    scan_tasks(&pm, &mut tm, &is_directory, &find);
    assert_eq!(tm.path, s("root"));
    assert_eq!(task_names(&tm), vec![s("in root/mod.rs")]);
    let paths: Vec<String> = tm.sub_maps.iter().map(|m| m.path.clone()).collect();
    assert_eq!(paths, vec![s("root/y"), s("root/x")]);
    assert_eq!(task_names(&tm.sub_maps[0]), vec![s("kept")]);
    assert_eq!(task_names(&tm.sub_maps[1]), vec![s("in root/x/mod.rs")]);
}

#[test]
fn scan_tasks_without_mod_file_declares_nothing() {
    let pm = PathMap {
        path: s("root"),
        modified_time: time(0),
        modified_state: ModifiedState::Changed,
        sub_maps: vec![leaf("root/lib.rs", 1, ModifiedState::Changed), leaf("root/mod.rs.bak", 1, ModifiedState::Changed)],
    };
    let mut tm = TaskMap { path: s("root"), sub_maps: vec![], tasks: vec![task_named("stale")] };
    let find = |_p: &String| vec![task_named("never")];
    scan_tasks(&pm, &mut tm, &|_p: &String| false, &find);
    assert!(tm.tasks.is_empty());
    assert!(tm.sub_maps.is_empty());
}

#[test]
fn scan_components_reads_the_mod_file_of_each_directory() {
    let pm = source_tree();
    let mut cm = ComponentMap {
        path: s("root"),
        sub_maps: vec![ComponentMap { path: s("root/y"), sub_maps: vec![], components: vec![ComponentType::Trait(s("Kept"))] }],
        components: vec![],
    };
    let find = |p: &String| vec![ComponentType::Component(p.clone())];
    scan_components(&pm, &mut cm, &is_directory, &find);
    assert_eq!(cm.components.len(), 1);
    assert!(matches!(&cm.components[0], ComponentType::Component(p) if p == "root/mod.rs"));
    assert_eq!(cm.sub_maps.len(), 2);
    assert_eq!(cm.sub_maps[0].path, s("root/y"));
    assert!(matches!(&cm.sub_maps[0].components[0], ComponentType::Trait(n) if n == "Kept"));
    assert_eq!(cm.sub_maps[1].path, s("root/x"));
    assert!(matches!(&cm.sub_maps[1].components[0], ComponentType::Component(p) if p == "root/x/mod.rs"));
}
