use voxel_rs::input::{ElementState, InputState, MOVE_FORWARD, MOVE_LEFT, TOGGLE_CULLING, TOGGLE_FLIGHT};

#[test]
fn key_changes_are_reported_once() {
    let mut s = InputState::new();
    assert!(s.process_keyboard_input(MOVE_FORWARD, ElementState::Pressed));
    assert!(!s.process_keyboard_input(MOVE_FORWARD, ElementState::Pressed));
    assert_eq!(s.get_key_state(MOVE_FORWARD), ElementState::Pressed);
    assert_eq!(s.get_key_state(MOVE_LEFT), ElementState::Released);
    assert!(s.process_keyboard_input(MOVE_FORWARD, ElementState::Released));
}

#[test]
fn releasing_toggle_key_flips_flight() {
    let mut s = InputState::new();
    assert!(s.flying);
    s.process_keyboard_input(TOGGLE_FLIGHT, ElementState::Pressed);
    assert!(s.flying);
    s.process_keyboard_input(TOGGLE_FLIGHT, ElementState::Released);
    assert!(!s.flying);
    s.process_keyboard_input(TOGGLE_CULLING, ElementState::Pressed);
    s.process_keyboard_input(TOGGLE_CULLING, ElementState::Released);
    assert!(!s.enable_culling);
}

#[test]
fn movement_needs_permission() {
    let mut s = InputState::new();
    s.process_keyboard_input(MOVE_FORWARD, ElementState::Pressed);
    let held = s.get_physics_input(true);
    assert!(held.key_move_forward && !held.key_move_left && held.flying);
    assert!(!s.get_physics_input(false).key_move_forward);
}

#[test]
fn clear_forgets_keys_buttons_and_modifiers() {
    let mut s = InputState::new();
    s.process_keyboard_input(MOVE_LEFT, ElementState::Pressed);
    assert!(s.process_mouse_input(1, ElementState::Pressed));
    assert!(!s.process_mouse_input(1, ElementState::Pressed));
    s.set_modifiers_state(4);
    assert_eq!(s.get_modifiers_state(), 4);
    s.clear();
    assert_eq!(s.get_key_state(MOVE_LEFT), ElementState::Released);
    assert_eq!(s.get_modifiers_state(), 0);
    assert!(s.process_mouse_input(1, ElementState::Pressed));
}
