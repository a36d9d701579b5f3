use corrosive::build::components::ComponentType;
use corrosive::build::grammar::{Delimiter, Token};
use corrosive::build::source::{find_structs_with_component, find_structs_with_task};
use corrosive::build::tasks::{MemberType, TaskInput, TaskOutput};
use corrosive::shaders::{compiled_shader, shader_source};

const COMPONENTS: &str = r#"
use something::*;

#[derive(Component, Debug)]
pub struct Position { x: f32 }

#[derive(Clone)]
/// Component in a comment only
pub struct Plain;

#[derive(State)]
pub enum Mode { A, B }

#[derive(Resource)]
pub type Time = u64;

#[trait_bound]
pub trait Draw {}

pub trait Hidden {}

trait_for!(trait Draw => Position, Vec<u8>, Position);

println!("x");
"#;

#[test]
fn a_source_text_declares_its_components() {
    let c = find_structs_with_component(COMPONENTS).unwrap();
    assert_eq!(c.len(), 5);
    assert!(matches!(&c[0], ComponentType::Component(n) if n == "Position"));
    assert!(matches!(&c[1], ComponentType::Component(n) if n == "Mode"));
    assert!(matches!(&c[2], ComponentType::Component(n) if n == "Time"));
    assert!(matches!(&c[3], ComponentType::Trait(n) if n == "Draw"));
    assert!(matches!(&c[4], ComponentType::TraitFor(n, v) if n == "Draw" && *v == vec!["Position".to_string(), "Vec<u8>".to_string()]));
}

#[test]
fn a_text_that_is_not_rust_declares_nothing() {
    assert!(find_structs_with_component("struct {").unwrap().is_empty());
    assert!(find_structs_with_task("fn (").is_empty());
}

#[test]
fn an_unreadable_trait_for_is_refused() {
    assert!(find_structs_with_component("trait_for!(Draw, Position);").is_none());
}

const TASKS: &str = r#"
pub fn helper() {}

#[task]
pub fn update(
    a: Arch<(&Position, &dyn Draw)>,
    mut r: Res<Time>,
    (x, y): (u8, u8),
    dt: DeltaTime,
) -> (RArch<(Position, Velocity)>, Signal, corrosive::Reset) {
    todo!()
}
"#;

#[test]
fn a_source_text_declares_its_tasks() {
    let t = find_structs_with_task(TASKS);
    assert_eq!(t.len(), 1);
    assert_eq!(t[0].name, "update");
    assert_eq!(t[0].inputs.len(), 3);
    match &t[0].inputs[0] {
        TaskInput::Arch(n, m) => {
            assert_eq!(n, "a");
            assert!(matches!(&m[0], MemberType::Normal(x) if x == "Position"));
            assert!(matches!(&m[1], MemberType::Trait(x) if x == "Draw"));
        }
        other => panic!("unexpected {:?}", other),
    }
    assert!(matches!(&t[0].inputs[1], TaskInput::Resources(n, x) if n == "r" && x == "Time"));
    assert!(matches!(&t[0].inputs[2], TaskInput::DeltaTime(n) if n == "dt"));
    assert_eq!(t[0].outputs.len(), 3);
    assert!(matches!(&t[0].outputs[0], TaskOutput::Arch(v) if *v == vec!["Position".to_string(), "Velocity".to_string()]));
    assert!(matches!(&t[0].outputs[1], TaskOutput::Signal));
    assert!(matches!(&t[0].outputs[2], TaskOutput::Reset));
}

#[test]
fn shader_files_are_told_apart_by_name() {
    assert!(shader_source("shaders/sprite.slang"));
    assert!(!shader_source("shaders/common.lib.slang"));
    assert!(!shader_source("shaders/sprite.wgsl"));
    assert!(compiled_shader("shaders/sprite.slang.wgsl"));
    assert!(!compiled_shader("shaders/sprite.wgsl"));
    assert!(!compiled_shader("shaders/sprite.slang"));
}

#[test]
fn printed_tokens_read_as_builder_tokens() {
    let t = corrosive::build::lexing::tokens_of_text("path \"./src\" , update (a => b) fn").unwrap();
    assert_eq!(t.len(), 6);
    assert!(matches!(&t[0], Token::Ident(s, true) if s == "path"));
    assert!(matches!(&t[1], Token::Literal(s, Some(v)) if s == "\"./src\"" && v == "./src"));
    assert!(matches!(&t[2], Token::Punct(',', false)));
    assert!(matches!(&t[3], Token::Ident(s, true) if s == "update"));
    match &t[4] {
        Token::Group(Delimiter::Parenthesis, inner) => {
            assert_eq!(inner.len(), 4);
            assert!(matches!(&inner[1], Token::Punct('=', true)));
            assert!(matches!(&inner[2], Token::Punct('>', false)));
        }
        other => panic!("unexpected {:?}", other),
    }
    assert!(matches!(&t[5], Token::Ident(s, false) if s == "fn"));
    assert!(corrosive::build::lexing::tokens_of_text("(unclosed").is_none());
}

#[test]
fn the_builder_call_of_a_source_text_is_found() {
    let calls = corrosive::build::source::macro_calls("corrosive_engine_builder!(path \"./x\");\nprintln!(\"y\");").unwrap();
    assert_eq!(calls.len(), 2);
    assert_eq!(calls[0].0.as_deref(), Some("corrosive_engine_builder"));
    assert_eq!(calls[1].0.as_deref(), Some("println"));
}
