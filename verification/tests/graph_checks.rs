use corrosive::build::dependency::{DependencyGraph, DependencyType};

fn task(s: &str) -> DependencyType {
    DependencyType::Task(s.to_string())
}

fn start(s: &str) -> DependencyType {
    DependencyType::GroupStart(s.to_string())
}

#[test]
fn graphs_built_by_their_operations_pass_the_checks() {
    let mut g = DependencyGraph::new();
    g.add_dependency(task("a"), task("b"));
    g.add_dependency(task("c"), task("b"));
    assert!(g.is_well_formed());
    assert!(g.counts_consistent());
}

#[test]
fn a_node_listed_twice_is_not_well_formed() {
    let g = DependencyGraph {
        dependents: vec![(task("a"), vec![]), (task("a"), vec![])],
        in_degrees: vec![(task("a"), 0)],
    };
    assert!(!g.is_well_formed());
    let h = DependencyGraph {
        dependents: vec![(task("a"), vec![])],
        in_degrees: vec![(task("a"), 0), (task("b"), 0), (task("a"), 1)],
    };
    assert!(!h.is_well_formed());
}

#[test]
fn a_degree_below_its_count_is_inconsistent() {
    let g = DependencyGraph {
        dependents: vec![(task("b"), vec![task("a")]), (task("c"), vec![task("a")])],
        in_degrees: vec![(task("a"), 1), (task("b"), 0), (task("c"), 0)],
    };
    assert!(g.is_well_formed());
    assert!(!g.counts_consistent());
    let h = DependencyGraph {
        dependents: vec![(task("b"), vec![task("a")])],
        in_degrees: vec![(task("a"), 3), (task("b"), 0)],
    };
    assert!(h.counts_consistent());
}

#[test]
fn task_leaves_are_found_within_the_depth_given() {
    let g = DependencyGraph {
        dependents: vec![
            (task("t"), vec![start("g"), task("x")]),
            (start("g"), vec![task("y"), task("z")]),
        ],
        in_degrees: vec![(task("t"), 0), (start("g"), 1), (task("x"), 1), (task("y"), 1), (task("z"), 1)],
    };
    assert_eq!(g.get_task_leaves_within(&task("t"), 1), None);
    assert_eq!(g.get_task_leaves_within(&task("t"), 2), Some(vec!["y".to_string(), "z".to_string(), "x".to_string()]));
    assert_eq!(g.get_task_leaves_within(&task("t"), 5), Some(vec!["y".to_string(), "z".to_string(), "x".to_string()]));
    assert_eq!(g.get_task_leaves_within(&task("nothing"), 5), None);
}

#[test]
fn groups_in_a_cycle_reach_no_leaves() {
    let g = DependencyGraph {
        dependents: vec![(start("g"), vec![start("h")]), (start("h"), vec![start("g")])],
        in_degrees: vec![(start("g"), 1), (start("h"), 1)],
    };
    assert_eq!(g.get_task_leaves_within(&start("g"), 50), None);
}
