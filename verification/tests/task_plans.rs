use corrosive::build::archetypes::{ArchTypes, TaskArchType, TasksInputOutput};
use corrosive::build::view_plan::arch_view_plans;
use corrosive::build::dependency::{DependencyType, TaskType};
use corrosive::build::tasks::{MemberType, Task, TaskInput, TaskOutput};
use corrosive::build::task_plan::{task_plan, tasks_in_order, InputPlan, OutputPlan};

fn s(x: &str) -> String {
    x.to_string()
}

fn sample_task() -> Task {
    Task {
        name: s("move_all"),
        inputs: vec![
            TaskInput::Arch(s("a"), vec![MemberType::Normal(s("Pos"))]),
            TaskInput::Resources(s("r"), s("Res<Time>")),
            TaskInput::State(s("st"), s("State<Mode>")),
            TaskInput::Hierarchy(s("h"), s("Tree")),
            TaskInput::DeltaTime(s("dt")),
            TaskInput::Arch(s("b"), vec![MemberType::Trait(s("Draw"))]),
        ],
        outputs: vec![
            TaskOutput::Arch(vec![s("Vel"), s("Pos")]),
            TaskOutput::Reset,
            TaskOutput::Signal,
        ],
    }
}

fn sample_io() -> TasksInputOutput {
    TasksInputOutput {
        input: vec![
            TaskArchType {
                arch_type_type: vec![MemberType::Normal(s("Pos"))],
                task_index: 0,
                input_arch_type_indexes: vec![(2, vec![0]), (5, vec![1])],
            },
            TaskArchType {
                arch_type_type: vec![MemberType::Trait(s("Draw"))],
                task_index: 1,
                input_arch_type_indexes: vec![(5, vec![0]), (7, vec![0])],
            },
        ],
        output: vec![4],
    }
}

#[test]
fn a_task_plan_names_what_each_input_and_output_uses() {
    let plan = task_plan(&sample_task(), &sample_io(), TaskType::Update).unwrap();
    assert_eq!(plan.inputs.len(), 6);
    assert!(matches!(&plan.inputs[0], InputPlan::Arch(0, v) if v == &vec![2, 5]));
    assert!(matches!(&plan.inputs[1], InputPlan::Resource(n) if n == "r_ResTime"));
    assert!(matches!(&plan.inputs[2], InputPlan::State(n) if n == "st_StateMode"));
    assert!(matches!(&plan.inputs[3], InputPlan::Hierarchy(n) if n == "h_Tree"));
    assert!(matches!(&plan.inputs[4], InputPlan::DeltaTime));
    assert!(matches!(&plan.inputs[5], InputPlan::Arch(1, v) if v == &vec![5, 7]));
    assert_eq!(plan.outputs.len(), 3);
    assert!(matches!(&plan.outputs[0], OutputPlan::Arch(0, 4, m) if m == &vec![1, 0]));
    assert!(matches!(&plan.outputs[1], OutputPlan::Reset(1)));
    assert!(matches!(&plan.outputs[2], OutputPlan::Signal(1)));
    assert!(plan.locks.is_empty());
    assert!(plan.spawned && plan.loops && plan.waits_frame && !plan.long && !plan.fixed);
}

#[test]
fn a_long_task_holds_each_archetype_lock_once() {
    let plan = task_plan(&sample_task(), &sample_io(), TaskType::Long).unwrap();
    let mut locks = plan.locks.clone();
    locks.sort();
    assert_eq!(locks, vec![2, 5, 7]);
    assert!(plan.long && plan.spawned && plan.loops && plan.waits_frame);
}

#[test]
fn setup_and_sync_tasks_run_once() {
    let setup = task_plan(&sample_task(), &sample_io(), TaskType::Setup).unwrap();
    assert!(setup.spawned && !setup.loops && !setup.waits_frame);
    let sync = task_plan(&sample_task(), &sample_io(), TaskType::Sync).unwrap();
    assert!(!sync.spawned && !sync.loops);
    let fixed = task_plan(&sample_task(), &sample_io(), TaskType::Fixed).unwrap();
    assert!(fixed.fixed && fixed.loops && fixed.waits_frame);
}

#[test]
fn too_few_archetypes_give_no_plan() {
    let io = TasksInputOutput { input: vec![], output: vec![4] };
    assert!(task_plan(&sample_task(), &io, TaskType::Update).is_none());
    let mut io = sample_io();
    io.output.clear();
    assert!(task_plan(&sample_task(), &io, TaskType::Update).is_none());
}

#[test]
fn view_plans_list_the_archetypes_each_input_reads() {
    let a = ArchTypes {
        arch_types: vec![vec![s("Pos")], vec![s("Pos"), s("Vel")]],
        tasks: vec![(
            s("step"),
            TasksInputOutput {
                input: vec![TaskArchType {
                    arch_type_type: vec![MemberType::Normal(s("Pos")), MemberType::Trait(s("Draw"))],
                    task_index: 0,
                    input_arch_type_indexes: vec![(1, vec![0, 1]), (0, vec![0])],
                }],
                output: vec![],
            },
        )],
        resources: vec![],
        states: vec![],
        hierarchy: vec![],
    };
    let plans = arch_view_plans(&a).unwrap();
    assert_eq!(plans.len(), 1);
    assert_eq!(plans[0].task, "step");
    assert_eq!(plans[0].view, 0);
    assert_eq!(plans[0].sources, vec![(vec![s("Pos"), s("Vel")], vec![0, 1]), (vec![s("Pos")], vec![0])]);
    assert_eq!(plans[0].items, vec![s("Pos"), s("dyn Draw")]);
}

#[test]
fn an_input_without_archetypes_names_its_task() {
    let a = ArchTypes {
        arch_types: vec![],
        tasks: vec![(
            s("empty"),
            TasksInputOutput {
                input: vec![TaskArchType { arch_type_type: vec![], task_index: 0, input_arch_type_indexes: vec![] }],
                output: vec![],
            },
        )],
        resources: vec![],
        states: vec![],
        hierarchy: vec![],
    };
    assert_eq!(arch_view_plans(&a).unwrap_err(), "empty");
}

#[test]
fn the_tasks_of_a_run_keep_their_order() {
    let nodes = vec![
        DependencyType::GroupStart("g".to_string()),
        DependencyType::Task("b".to_string()),
        DependencyType::GroupEnd("g".to_string()),
        DependencyType::Task("a".to_string()),
    ];
    assert_eq!(tasks_in_order(&nodes), vec!["b".to_string(), "a".to_string()]);
}
