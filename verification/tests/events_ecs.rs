use corrosive::events::{InputCombination, InputEvent, InputState, InputTable, MouseState, WheelState};
use corrosive::position2d::{Step, StepAction};

#[test]
fn combinations_ignore_the_order_events_are_given_in() {
    let a = InputEvent::KeyCode(InputState::Down(3));
    let b = InputEvent::MouseState(MouseState::MouseLeft);
    let c = InputEvent::WheelState(WheelState::Up);
    let x = InputCombination::new(&[c, a, b]);
    let y = InputCombination::new(&[b, c, a]);
    assert_eq!(x, y);
    assert_eq!(x.get(), &vec![a, b, c]);
}

#[test]
fn combination_add_and_remove() {
    let a = InputEvent::KeyCode(InputState::Hold(1));
    let b = InputEvent::MouseButton(InputState::Up(0));
    let mut x = InputCombination::new(&[b]);
    x.add(a);
    assert_eq!(x.get(), &vec![a, b]);
    x.remove(b);
    assert_eq!(x.get(), &vec![a]);
    x.remove_by_index(0);
    assert!(x.get().is_empty());
}

#[test]
fn all_combinations_are_the_prefixes() {
    let a = InputEvent::KeyCode(InputState::Down(1));
    let b = InputEvent::KeyCode(InputState::Down(2));
    let x = InputCombination::new(&[b, a]);
    assert_eq!(x.get_all_combinations(), vec![vec![a], vec![a, b]]);
}

#[test]
fn input_table_collects_combinations_by_action() {
    let mut t = InputTable::new();
    let jump = InputCombination::new(&[InputEvent::KeyCode(InputState::Down(57))]);
    let jump2 = InputCombination::new(&[InputEvent::MouseButton(InputState::Down(0))]);
    t.add_action("jump", jump);
    t.add_action("jump", jump2);
    assert_eq!(t.get_action_combinations("jump").unwrap().len(), 2);
    assert!(t.get_action_combinations("run").is_none());
    if let Some(v) = t.get_action_combinations_mut("jump") {
        v.pop();
    }
    assert_eq!(t.get_action_combinations("jump").unwrap().len(), 1);
}

#[test]
fn steps_decide_what_a_move_does() {
    assert_eq!(Step::Local.local_action(), StepAction::Apply);
    assert_eq!(Step::Global.local_action(), StepAction::SyncFirst);
    assert_eq!(Step::Unset.global_action(), StepAction::Begin);
    assert_eq!(Step::Error.global_action(), StepAction::Skip);
}
