use corrosive::build::reach::package_order;
use corrosive::build::dependency::{DependencyGraph, DependencyType};

fn task(s: &str) -> DependencyType {
    DependencyType::Task(s.to_string())
}

fn names(v: &[DependencyType]) -> Vec<String> {
    v.iter().map(|d| d.to_text()).collect()
}

#[test]
fn topological_sort_orders_dependencies_first() {
    let mut g = DependencyGraph::new();
    g.add_node(task("a"));
    g.add_node(task("b"));
    g.add_node(task("c"));
    // "a" waits for "b", "b" waits for "c".
    g.add_dependency(task("a"), task("b"));
    g.add_dependency(task("b"), task("c"));
    let order = g.topological_sort().unwrap();
    assert_eq!(names(&order), vec!["Task(c)", "Task(b)", "Task(a)"]);
}

#[test]
fn topological_sort_takes_the_greatest_free_node_first() {
    let mut g = DependencyGraph::new();
    g.add_node(task("a"));
    g.add_node(task("b"));
    g.add_node(DependencyType::GroupStart("z".to_string()));
    let order = g.topological_sort().unwrap();
    // Tasks come after group starts in the order of nodes, and "b" after "a".
    assert_eq!(names(&order), vec!["Task(b)", "Task(a)", "GroupStart(z)"]);
}

#[test]
fn topological_sort_reports_a_cycle() {
    let mut g = DependencyGraph::new();
    g.add_dependency(task("a"), task("b"));
    g.add_dependency(task("b"), task("a"));
    assert_eq!(g.topological_sort().err(), Some("Circular dependency detected"));
}

#[test]
fn add_dependency_counts_waiting_nodes() {
    let mut g = DependencyGraph::new();
    g.add_dependency(task("a"), task("b"));
    g.add_dependency(task("a"), task("c"));
    let deg = g.in_degrees.iter().find(|(n, _)| n.to_text() == "Task(a)").unwrap().1;
    assert_eq!(deg, 2);
    let deps_of_b = &g.dependents.iter().find(|(n, _)| n.to_text() == "Task(b)").unwrap().1;
    assert_eq!(names(deps_of_b), vec!["Task(a)"]);
}

#[test]
fn merge_adds_the_other_graphs_edges() {
    let mut g = DependencyGraph::new();
    g.add_dependency(task("a"), task("b"));
    let mut h = DependencyGraph::new();
    h.add_dependency(task("b"), task("c"));
    g.merge(&h);
    let order = g.topological_sort().unwrap();
    assert_eq!(names(&order), vec!["Task(c)", "Task(b)", "Task(a)"]);
}

#[test]
fn node_text_round_trip() {
    for n in [task("x"), DependencyType::GroupStart("g".to_string()), DependencyType::GroupEnd("(h)".to_string())] {
        let t = n.to_text();
        let back = DependencyType::from_str(&t).unwrap();
        assert_eq!(back.to_text(), t);
    }
    assert_eq!(
        DependencyType::from_str("Nothing(x)").err().unwrap(),
        "Invalid dependency type string: Nothing(x)"
    );
}

#[test]
fn task_leaves_go_through_groups() {
    let mut g = DependencyGraph::new();
    let start = DependencyType::GroupStart("g".to_string());
    g.add_dependency(task("t1"), start.duplicate());
    g.add_dependency(DependencyType::GroupEnd("h".to_string()), start.duplicate());
    g.add_dependency(task("t2"), DependencyType::GroupEnd("h".to_string()));
    let leaves = g.get_task_leaves(&start);
    assert_eq!(leaves, vec!["t1".to_string(), "t2".to_string()]);
}

fn package(name: &str, packages: &[&str]) -> corrosive::build::package::AppPackage {
    let mut p = corrosive::build::package::AppPackage::default();
    p.name = name.to_string();
    p.packages = packages.iter().map(|s| s.to_string()).collect();
    p
}

#[test]
fn packages_are_reached_from_main_in_the_order_first_named() {
    let pkgs = vec![
        package("b", &["d", "main"]),
        package("main", &["b", "c"]),
        package("c", &["d", "e"]),
        package("main", &["c", "f"]),
        package("unused", &["g"]),
    ];
    assert_eq!(package_order(&pkgs), vec!["main", "b", "c", "f", "d", "e"]);
    assert_eq!(package_order(&vec![]), vec!["main"]);
}
