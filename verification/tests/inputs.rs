use corrosive::events::{InputCombination, InputEvent, InputState, InputTable, MouseState, WheelState};
use corrosive::inputs::{update_events, InputStorage, Inputs, PointerSigns};
use std::collections::HashSet;

const SPACE: u32 = 62;
const KEY_A: u32 = 19;

fn set(xs: &[u32]) -> HashSet<u32> {
    xs.iter().copied().collect()
}

fn jump_table() -> InputTable {
    let mut table = InputTable::new();
    table.add_action("jump", InputCombination::new(&[InputEvent::KeyCode(InputState::Down(SPACE))]));
    table.add_action(
        "dash",
        InputCombination::new(&[
            InputEvent::KeyCode(InputState::Hold(KEY_A)),
            InputEvent::MouseState(MouseState::MouseLeft),
        ]),
    );
    table.add_action("zoom", InputCombination::new(&[InputEvent::WheelState(WheelState::Up)]));
    table
}

#[test]
fn a_press_reads_down_then_held_then_up() {
    let mut storage = InputStorage::new();
    let mut inputs = Inputs::new();
    storage.key_pressed(SPACE);
    update_events(&mut inputs, &mut storage, PointerSigns::still());
    assert!(inputs.is_key_down(SPACE));
    assert!(inputs.is_key_held(SPACE));
    assert!(storage.keys_down.is_empty());
    assert_eq!(storage.keys_hold, set(&[SPACE]));

    update_events(&mut inputs, &mut storage, PointerSigns::still());
    assert!(!inputs.is_key_down(SPACE));
    assert!(inputs.is_key_held(SPACE));

    storage.key_released(SPACE);
    update_events(&mut inputs, &mut storage, PointerSigns::still());
    assert!(!inputs.is_key_held(SPACE));
    assert_eq!(inputs.get_up_keys(), set(&[SPACE]));
    assert!(storage.keys_up.is_empty());
}

#[test]
fn is_key_up_reads_the_keys_that_went_down() {
    let mut storage = InputStorage::new();
    let mut inputs = Inputs::new();
    storage.key_pressed(KEY_A);
    update_events(&mut inputs, &mut storage, PointerSigns::still());
    assert!(inputs.is_key_up(KEY_A));
}

#[test]
fn mouse_buttons_follow_presses_and_releases() {
    let mut storage = InputStorage::new();
    let mut inputs = Inputs::new();
    storage.mouse_button_pressed(0);
    storage.mouse_button_pressed(1);
    storage.mouse_button_released(1);
    update_events(&mut inputs, &mut storage, PointerSigns::still());
    assert!(inputs.is_mouse_button_down(0));
    assert!(inputs.is_mouse_button_held(0));
    assert!(!inputs.is_mouse_button_held(1));
    assert!(inputs.is_mouse_button_up(1));
    assert_eq!(inputs.get_mouse_keys(), set(&[0, 1]));
    assert_eq!(inputs.get_mouse_down_keys(), set(&[0, 1]));
    assert_eq!(inputs.get_mouse_hold_keys(), set(&[0]));
    assert_eq!(inputs.get_mouse_up_keys(), set(&[1]));
}

#[test]
fn get_keys_gathers_up_and_held_keys() {
    let mut storage = InputStorage::new();
    let mut inputs = Inputs::new();
    storage.key_pressed(KEY_A);
    storage.key_pressed(SPACE);
    storage.key_released(SPACE);
    storage.key_pressed(7);
    update_events(&mut inputs, &mut storage, PointerSigns::still());
    assert_eq!(inputs.get_keys(), set(&[KEY_A, SPACE, 7]));
    assert_eq!(inputs.get_down_keys(), set(&[KEY_A, SPACE, 7]));
    assert_eq!(inputs.get_hold_keys(), set(&[KEY_A, 7]));
}

#[test]
fn actions_trigger_when_a_combination_holds() {
    let mut storage = InputStorage::new();
    let mut inputs = Inputs::new();
    inputs.add_table("game", jump_table());
    assert!(!inputs.is_action_triggered("game", "jump"));
    storage.key_pressed(SPACE);
    update_events(&mut inputs, &mut storage, PointerSigns::still());
    assert!(inputs.is_action_triggered("game", "jump"));
    assert!(!inputs.is_action_triggered("game", "dash"));
    assert!(!inputs.is_action_triggered("menu", "jump"));
    assert!(!inputs.is_action_triggered("game", "fly"));

    storage.key_pressed(KEY_A);
    let left = PointerSigns { left: true, ..PointerSigns::still() };
    update_events(&mut inputs, &mut storage, left);
    assert!(inputs.is_action_triggered("game", "dash"));
    assert!(!inputs.is_action_triggered("game", "jump"));
    assert!(!inputs.is_action_triggered("game", "zoom"));

    let wheel = PointerSigns { wheel_up: true, ..PointerSigns::still() };
    update_events(&mut inputs, &mut storage, wheel);
    assert!(inputs.is_action_triggered("game", "zoom"));
    assert!(!inputs.is_action_triggered("game", "dash"));
}

#[test]
fn the_active_table_is_set_only_to_a_known_table() {
    let mut storage = InputStorage::new();
    let mut inputs = Inputs::new();
    inputs.add_table("game", jump_table());
    assert!(!inputs.set_active_table("menu"));
    assert!(!inputs.is_action_from_active_table("jump"));
    assert!(inputs.set_active_table("game"));
    storage.key_pressed(SPACE);
    update_events(&mut inputs, &mut storage, PointerSigns::still());
    assert!(inputs.is_action_from_active_table("jump"));
}

#[test]
fn tables_can_be_read_and_changed_in_place() {
    let mut inputs = Inputs::new();
    assert!(inputs.get_table("game").is_none());
    inputs.add_table("game", InputTable::new());
    assert!(inputs.get_table("game").unwrap().get_action_combinations("jump").is_none());
    inputs
        .get_table_mut("game")
        .unwrap()
        .add_action("jump", InputCombination::new(&[InputEvent::KeyCode(InputState::Hold(SPACE))]));
    assert_eq!(inputs.get_table("game").unwrap().get_action_combinations("jump").unwrap().len(), 1);
    assert!(inputs.get_table_mut("menu").is_none());
    inputs.add_table("game", InputTable::new());
    assert!(inputs.get_table("game").unwrap().get_action_combinations("jump").is_none());
    inputs.add_table("menu", jump_table());
    assert!(inputs.is_well_formed());
    assert!(jump_table().is_well_formed());
}

#[test]
fn the_pointer_signs_are_those_handed_in() {
    let mut storage = InputStorage::default();
    let mut inputs = Inputs::default();
    let p = PointerSigns { up: true, right: true, ..PointerSigns::still() };
    update_events(&mut inputs, &mut storage, p);
    assert_eq!(inputs.pointer(), p);
}
