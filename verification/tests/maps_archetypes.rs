use corrosive::build::archetypes::get_all_archetypes;
use corrosive::build::components::{ComponentMap, ComponentType};
use corrosive::build::paths::{ModifiedState, ModifiedTime, PathMap};
use corrosive::build::tasks::{MemberType, Task, TaskInput, TaskMap, TaskOutput};
use corrosive::text::sort_strings;

fn s(x: &str) -> String {
    x.to_string()
}

fn task(name: &str, inputs: Vec<TaskInput>, outputs: Vec<TaskOutput>) -> Task {
    Task { name: s(name), inputs, outputs }
}

#[test]
fn strings_sort_by_code_point() {
    let v = vec![s("b"), s("B"), s("a"), s("ab"), s("")];
    assert_eq!(sort_strings(&v), vec![s(""), s("B"), s("a"), s("ab"), s("b")]);
}

#[test]
fn archetypes_are_sorted_and_indexed() {
    let spawner = task("spawn", vec![], vec![TaskOutput::Arch(vec![s("Pos"), s("Dmg")]), TaskOutput::Signal]);
    let mover = task(
        "move",
        vec![
            TaskInput::Resources(s("r"), s("Time")),
            TaskInput::Arch(s("a"), vec![MemberType::Normal(s("Pos"))]),
            TaskInput::State(s("st"), s("Mode")),
        ],
        vec![TaskOutput::Arch(vec![s("Pos")])],
    );
    let tasks = vec![spawner, mover];
    let r = get_all_archetypes(&tasks, &vec![]);
    assert_eq!(r.arch_types, vec![vec![s("Dmg"), s("Pos")], vec![s("Pos")]]);
    assert_eq!(r.resources, vec![s("Time")]);
    assert_eq!(r.states, vec![s("Mode")]);
    assert!(r.hierarchy.is_empty());
    let (_, spawn_io) = r.tasks.iter().find(|(n, _)| n == "spawn").unwrap();
    assert_eq!(spawn_io.output, vec![0]);
    assert!(spawn_io.input.is_empty());
    let (_, move_io) = r.tasks.iter().find(|(n, _)| n == "move").unwrap();
    assert_eq!(move_io.output, vec![1]);
    assert_eq!(move_io.input.len(), 1);
    assert_eq!(move_io.input[0].task_index, 0);
    // "Pos" is at 1 in the first archetype and at 0 in the second.
    assert_eq!(move_io.input[0].input_arch_type_indexes, vec![(0, vec![1]), (1, vec![0])]);
}

#[test]
fn trait_members_expand_to_each_component() {
    let reader = task(
        "read",
        vec![TaskInput::Arch(s("a"), vec![MemberType::Trait(s("Shape")), MemberType::Normal(s("Pos"))])],
        vec![TaskOutput::Arch(vec![s("Pos"), s("Circle")]), TaskOutput::Arch(vec![s("Square"), s("Pos")])],
    );
    let traits = vec![(s("Shape"), vec![s("Square"), s("Circle")])];
    let r = get_all_archetypes(&vec![reader], &traits);
    let (_, io) = r.tasks.iter().find(|(n, _)| n == "read").unwrap();
    // Combinations in order: (Square, Pos) then (Circle, Pos).
    assert_eq!(io.input[0].input_arch_type_indexes, vec![(1, vec![1, 0]), (0, vec![0, 1])]);
}

#[test]
fn task_map_get_all_prefers_later_maps() {
    let sub = TaskMap { path: s("./src/sub"), sub_maps: vec![], tasks: vec![task("t", vec![], vec![TaskOutput::Reset])] };
    let top = TaskMap { path: s("./src"), sub_maps: vec![sub], tasks: vec![task("t", vec![], vec![]), task("u", vec![], vec![])] };
    let all = top.get_all();
    assert_eq!(all.len(), 2);
    let t = &all.iter().find(|(n, _)| n == "t").unwrap().1;
    assert_eq!(t.outputs.len(), 1);
}

#[test]
fn task_paths_go_through_the_modules() {
    let sub = TaskMap { path: s("./src/physics"), sub_maps: vec![], tasks: vec![task("step", vec![], vec![])] };
    let top = TaskMap { path: s("./src"), sub_maps: vec![sub], tasks: vec![task("main_task", vec![], vec![])] };
    let all = top.get_all_with_path();
    let mut paths: Vec<String> = all.iter().map(|(_, p)| p.clone()).collect();
    paths.sort();
    assert_eq!(paths, vec![s("src::main_task"), s("src::physics::step")]);
    assert!(TaskMap { path: s(""), sub_maps: vec![], tasks: vec![] }.get_all_with_path_checked().is_none());
}

#[test]
fn component_names_and_traits() {
    let sub = ComponentMap {
        path: s("src/shapes"),
        sub_maps: vec![],
        components: vec![
            ComponentType::Component(s("Circle")),
            ComponentType::TraitFor(s("Shape"), vec![s("Circle")]),
        ],
    };
    let top = ComponentMap {
        path: s("src"),
        sub_maps: vec![sub],
        components: vec![
            ComponentType::Trait(s("Shape")),
            ComponentType::TraitFor(s("Shape"), vec![s("Square"), s("Square")]),
        ],
    };
    let mut names = top.get_all();
    names.sort();
    assert_eq!(names, vec![(s("Circle"), s("src::shapes::Circle")), (s("Shape"), s("src::Shape"))]);
    let traits = top.get_trait_to_components();
    assert_eq!(traits.len(), 1);
    let mut comps = traits[0].1.clone();
    comps.sort();
    assert_eq!(comps, vec![s("Circle"), s("Square")]);
}

#[test]
fn removing_a_path_map_marks_every_level() {
    let t = ModifiedTime { secs: 1, nanos: 2 };
    let leaf = PathMap { path: s("a/b"), modified_time: t, modified_state: ModifiedState::Changed, sub_maps: vec![] };
    let mut top = PathMap { path: s("a"), modified_time: t, modified_state: ModifiedState::Changed, sub_maps: vec![leaf] };
    top.remove();
    assert_eq!(top.modified_state, ModifiedState::Removed);
    assert_eq!(top.sub_maps[0].modified_state, ModifiedState::Removed);
    top.none();
    assert_eq!(top.sub_maps[0].modified_state, ModifiedState::Unchanged);
    assert_eq!(top.sub_maps[0].path, "a/b");
}
