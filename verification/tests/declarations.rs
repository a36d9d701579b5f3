use corrosive::build::components::ComponentType;
use corrosive::build::declarations::{
    contains_text_exec, drop_char_exec, drop_pattern_exec, components_of_items, tasks_of_fns,
    get_task_input, get_task_output, Attr, FnItem, Param, PathType, Segment, SourceItem, TypeArg,
};
use corrosive::build::tasks::{MemberType, TaskInput, TaskOutput};

fn s(x: &str) -> String {
    x.to_string()
}

fn generic(name: &str, ident: &str, arg: &str, elems: Option<Vec<&str>>) -> Param {
    Param {
        name: s(name),
        path: Some(PathType {
            text: format!("{} < {} >", ident, arg),
            last_ident: Some(s(ident)),
            first_arg: Some(TypeArg { text: s(arg), elems: elems.map(|v| v.into_iter().map(s).collect()) }),
        }),
    }
}

fn plain(name: &str, ty: &str) -> Param {
    Param { name: s(name), path: Some(PathType { text: s(ty), last_ident: Some(s(ty)), first_arg: None }) }
}

fn member_names(m: &[MemberType]) -> Vec<String> {
    m.iter()
        .map(|x| match x {
            MemberType::Normal(n) => format!("normal {}", n),
            MemberType::Trait(n) => format!("trait {}", n),
        })
        .collect()
}

#[test]
fn text_helpers_follow_str_replace_and_contains() {
    assert_eq!(drop_char_exec("& a b", ' '), s("&ab"));
    assert_eq!(drop_pattern_exec("& dyn Draw + dyndyn x", "dyn "), s("& Draw + dynx"));
    assert_eq!(drop_pattern_exec("abc", ""), s("abc"));
    assert!(contains_text_exec("# [task]", "task"));
    assert!(contains_text_exec("abc", ""));
    assert!(!contains_text_exec("# [tas]", "task"));
}

#[test]
fn parameters_give_the_task_inputs() {
    let params = vec![
        generic("a", "Arch", "(& Pos , & dyn Draw)", Some(vec!["& Pos", "& dyn Draw"])),
        generic("one", "Arch", "& dyn Draw", None),
        generic("r", "Res", "Time < u8 >", None),
        generic("st", "State", "Mode", None),
        generic("h", "Hierarchy", "Node", None),
        generic("v", "Vec", "u8", None),
        plain("dt", "DeltaTime"),
        Param { name: s("_"), path: None },
    ];
    let inputs = get_task_input(&params);
    assert_eq!(inputs.len(), 6);
    match &inputs[0] {
        TaskInput::Arch(n, m) => {
            assert_eq!(n, "a");
            assert_eq!(member_names(m), vec![s("normal Pos"), s("trait Draw")]);
        }
        other => panic!("unexpected {:?}", other),
    }
    match &inputs[1] {
        TaskInput::Arch(n, m) => {
            assert_eq!(n, "one");
            assert_eq!(member_names(m), vec![s("trait Draw")]);
        }
        other => panic!("unexpected {:?}", other),
    }
    assert!(matches!(&inputs[2], TaskInput::Resources(n, t) if n == "r" && t == "Time<u8>"));
    assert!(matches!(&inputs[3], TaskInput::State(n, t) if n == "st" && t == "Mode"));
    assert!(matches!(&inputs[4], TaskInput::Hierarchy(n, t) if n == "h" && t == "Node"));
    assert!(matches!(&inputs[5], TaskInput::DeltaTime(n) if n == "dt"));
}

#[test]
fn returned_tuples_give_the_task_outputs() {
    let returned = vec![
        vec![Segment { ident: s("RArch"), tuple_args: vec![vec![s("Pos"), s("Vel < f32 >")], vec![s("Tag")]] }],
        vec![Segment { ident: s("Signal"), tuple_args: vec![] }],
        vec![Segment { ident: s("corrosive"), tuple_args: vec![] }, Segment { ident: s("Reset"), tuple_args: vec![] }],
        vec![],
    ];
    let outputs = get_task_output(&returned);
    assert_eq!(outputs.len(), 4);
    assert!(matches!(&outputs[0], TaskOutput::Arch(v) if *v == vec![s("Pos"), s("Vel<f32>")]));
    assert!(matches!(&outputs[1], TaskOutput::Arch(v) if *v == vec![s("Tag")]));
    assert!(matches!(&outputs[2], TaskOutput::Signal));
    assert!(matches!(&outputs[3], TaskOutput::Reset));
}

#[test]
fn only_functions_marked_as_tasks_are_tasks() {
    let items = vec![
        FnItem { name: s("helper"), attrs: vec![s("# [inline]")], params: vec![], returned: vec![] },
        FnItem {
            name: s("update"),
            attrs: vec![s("# [doc = \"x\"]"), s("# [task]")],
            params: vec![plain("dt", "DeltaTime")],
            returned: vec![vec![Segment { ident: s("Signal"), tuple_args: vec![] }]],
        },
    ];
    let tasks = tasks_of_fns(&items);
    assert_eq!(tasks.len(), 1);
    assert_eq!(tasks[0].name, "update");
    assert!(matches!(&tasks[0].inputs[0], TaskInput::DeltaTime(n) if n == "dt"));
    assert!(matches!(&tasks[0].outputs[0], TaskOutput::Signal));
}

fn attr(ident: Option<&str>, text: &str) -> Attr {
    Attr { ident: ident.map(s), text: s(text) }
}

#[test]
fn source_items_give_components_traits_and_implementations() {
    let items = vec![
        SourceItem::Data(s("Pos"), vec![attr(Some("derive"), "# [derive (Component , Debug)]")]),
        SourceItem::Data(s("Plain"), vec![attr(Some("derive"), "# [derive (Clone)]"), attr(Some("doc"), "# [doc = \"Component\"]")]),
        SourceItem::Data(s("Twice"), vec![attr(Some("derive"), "# [derive (State)]"), attr(Some("derive"), "# [derive (Resource)]")]),
        SourceItem::Trait(s("Draw"), vec![attr(Some("trait_bound"), "# [trait_bound]")]),
        SourceItem::Trait(s("Hidden"), vec![attr(None, "# [a :: trait_bound]")]),
        SourceItem::TraitFor(s("Draw"), vec![s("Pos"), s("P os"), s("Vel < f32 >")]),
        SourceItem::Other,
    ];
    let c = components_of_items(&items);
    assert_eq!(c.len(), 5);
    assert!(matches!(&c[0], ComponentType::Component(n) if n == "Pos"));
    assert!(matches!(&c[1], ComponentType::Component(n) if n == "Twice"));
    assert!(matches!(&c[2], ComponentType::Component(n) if n == "Twice"));
    assert!(matches!(&c[3], ComponentType::Trait(n) if n == "Draw"));
    assert!(matches!(&c[4], ComponentType::TraitFor(n, v) if n == "Draw" && *v == vec![s("Pos"), s("Vel<f32>")]));
}
