use corrosive::build::dependency::{LogicalExpression, LogicalOperator, TaskType};
use corrosive::build::grammar::{Delimiter, Token};
use corrosive::build::package::AppPackage;

fn id(s: &str) -> Token {
    Token::Ident(s.to_string(), true)
}
fn kw(s: &str) -> Token {
    Token::Ident(s.to_string(), false)
}
fn lit(s: &str) -> Token {
    Token::Literal(format!("\"{}\"", s), Some(s.to_string()))
}
fn p(c: char, joint: bool) -> Token {
    Token::Punct(c, joint)
}
fn node_names(v: &[(corrosive::build::dependency::DependencyType, usize)]) -> Vec<(String, usize)> {
    let mut r: Vec<(String, usize)> = v.iter().map(|(n, d)| (n.to_text(), *d)).collect();
    r.sort();
    r
}

#[test]
fn empty_input_gives_the_default_package() {
    let pkg = AppPackage::parse(&vec![]).unwrap();
    assert_eq!(pkg.name, "main");
    assert_eq!(pkg.path, "./src");
    assert!(pkg.tasks.is_empty());
    assert!(pkg.packages.is_empty());
}

#[test]
fn task_before_task_goes_to_the_runtime_graph() {
    let toks = vec![id("update"), lit("a"), id("before"), lit("b")];
    let pkg = AppPackage::parse(&toks).unwrap();
    assert_eq!(pkg.tasks.len(), 1);
    assert_eq!(pkg.tasks[0].0, "a");
    assert_eq!((pkg.tasks[0].1).0, TaskType::Update);
    assert!((pkg.tasks[0].1).1.is_none());
    assert_eq!(
        node_names(&pkg.runtime_dependency.in_degrees),
        vec![("Task(a)".to_string(), 1), ("Task(b)".to_string(), 0)]
    );
    assert!(pkg.setup_dependency.in_degrees.is_empty());
    let order = pkg.runtime_dependency.topological_sort().unwrap();
    let names: Vec<String> = order.iter().map(|d| d.to_text()).collect();
    assert_eq!(names, vec!["Task(b)", "Task(a)"]);
}

#[test]
fn entries_after_a_comma_are_read_too() {
    let toks = vec![
        id("path"), lit("./src/app"), p(',', false),
        id("setup"), lit("init"), p(',', false),
        id("package"), lit("extra"), p(',', false),
        id("sync_update"), lit("s"),
    ];
    let pkg = AppPackage::parse(&toks).unwrap();
    assert_eq!(pkg.path, "./src/app");
    assert_eq!(pkg.packages, vec!["extra".to_string()]);
    assert_eq!(pkg.tasks.len(), 2);
    assert_eq!(node_names(&pkg.setup_dependency.in_degrees), vec![("Task(init)".to_string(), 0)]);
    assert_eq!(node_names(&pkg.sync_dependency.in_degrees), vec![("Task(s)".to_string(), 0)]);
}

#[test]
fn a_path_after_the_first_entry_is_overridden() {
    let toks = vec![id("update"), lit("a"), p(',', false), id("path"), lit("./x")];
    let pkg = AppPackage::parse(&toks).unwrap();
    assert_eq!(pkg.path, "./src");
}

#[test]
fn group_in_group_adds_both_edges() {
    let toks = vec![id("group"), id("setup"), lit("inner"), id("in_group"), lit("outer")];
    let pkg = AppPackage::parse(&toks).unwrap();
    assert_eq!(
        node_names(&pkg.setup_dependency.in_degrees),
        vec![
            ("GroupEnd(inner)".to_string(), 1),
            ("GroupEnd(outer)".to_string(), 0),
            ("GroupStart(inner)".to_string(), 0),
            ("GroupStart(outer)".to_string(), 1),
        ]
    );
}

#[test]
fn a_condition_is_read_after_if() {
    let toks = vec![
        id("update"), lit("a"), kw("if"),
        p('!', false), lit("sig"), p('&', true), p('&', false),
        id("State"), p(':', true), p(':', false), id("On"),
    ];
    let pkg = AppPackage::parse(&toks).unwrap();
    let cond = (pkg.tasks[0].1).1.as_ref().unwrap();
    match cond {
        LogicalExpression::Grouped(v) => {
            assert_eq!(v.len(), 3);
            match &v[0] {
                LogicalExpression::Not(b) => match &**b {
                    LogicalExpression::Signal(s) => assert_eq!(s, "sig"),
                    _ => panic!("expected a signal"),
                },
                _ => panic!("expected a negation"),
            }
            match &v[1] {
                LogicalExpression::Operator(o) => assert_eq!(*o, LogicalOperator::And),
                _ => panic!("expected an operator"),
            }
            match &v[2] {
                LogicalExpression::State(a, b) => {
                    assert_eq!(a, "State");
                    assert_eq!(b, "State :: On");
                },
                _ => panic!("expected a state"),
            }
        },
        _ => panic!("expected a group"),
    }
}

#[test]
fn grouped_conditions_nest() {
    let inner = vec![lit("x"), p('|', true), p('|', false), lit("y")];
    let toks = vec![id("update"), lit("a"), kw("if"), Token::Group(Delimiter::Parenthesis, inner)];
    let pkg = AppPackage::parse(&toks).unwrap();
    match (pkg.tasks[0].1).1.as_ref().unwrap() {
        LogicalExpression::Grouped(v) => {
            assert_eq!(v.len(), 1);
            match &v[0] {
                LogicalExpression::Grouped(w) => assert_eq!(w.len(), 3),
                _ => panic!("expected a nested group"),
            }
        },
        _ => panic!("expected a group"),
    }
}

#[test]
fn errors_name_what_was_expected() {
    assert_eq!(AppPackage::parse(&vec![lit("x")]).err().unwrap(), "Expected and Ident");
    assert_eq!(
        AppPackage::parse(&vec![id("nonsense")]).err().unwrap(),
        "Expected path, update, fixed_update, sync_update, long_update, setup, group or package."
    );
    assert_eq!(
        AppPackage::parse(&vec![id("update")]).err().unwrap(),
        "String literal of name of a task.\nExample: (update \"normal_task\")"
    );
    assert_eq!(
        AppPackage::parse(&vec![id("update"), lit("a"), id("beside"), lit("b")]).err().unwrap(),
        "Expected before, after, before_group, after_group or in_group."
    );
    assert_eq!(
        AppPackage::parse(&vec![id("group"), id("sync"), lit("g")]).err().unwrap(),
        "Expected setup.\nExample: (group setup \"example_group\" before \"example_task\")"
    );
    assert_eq!(
        AppPackage::parse(&vec![id("group"), lit("g"), lit("h")]).err().unwrap(),
        "Expected an Ident"
    );
    assert_eq!(
        AppPackage::parse(&vec![id("update"), lit("a"), lit("b")]).err().unwrap(),
        "unexpected token"
    );
}

#[test]
fn a_condition_alone_reads_as_a_group() {
    let c = LogicalExpression::parse(&vec![lit("go")]).unwrap();
    match c {
        LogicalExpression::Grouped(v) => assert_eq!(v.len(), 1),
        _ => panic!("expected a group"),
    }
    assert_eq!(LogicalExpression::parse(&vec![lit("go"), p(',', false)]).err().unwrap(), "unexpected token");
}

#[test]
fn a_condition_token_no_rule_reads_is_reported_by_the_checked_readers() {
    let number = || Token::Literal("5".to_string(), None);
    let toks = vec![id("update"), lit("t"), kw("if"), number()];
    assert!(AppPackage::parse_checked(&toks).is_none());
    assert!(LogicalExpression::parse_checked(&vec![number()]).is_none());
    let fine = vec![id("update"), lit("t"), kw("if"), lit("go")];
    assert!(AppPackage::parse_checked(&fine).unwrap().is_ok());
    match LogicalExpression::parse_checked(&vec![lit("go")]) {
        Some(Ok(LogicalExpression::Grouped(v))) => {
            assert_eq!(v.len(), 1);
            assert!(matches!(&v[0], LogicalExpression::Signal(s) if s == "go"));
        }
        other => panic!("unexpected {:?}", other),
    }
    assert_eq!(
        AppPackage::parse_checked(&vec![lit("x")]).unwrap().err().unwrap(),
        "Expected and Ident"
    );
}
