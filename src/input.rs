//! Keyboard and mouse state of the client.
use vstd::prelude::*;
use std::collections::HashMap;

verus! {

broadcast use vstd::std_specs::hash::group_hash_axioms;

pub const MOVE_FORWARD: u32 = 17;
pub const MOVE_LEFT: u32 = 30;
pub const MOVE_BACKWARD: u32 = 31;
pub const MOVE_RIGHT: u32 = 32;
pub const MOVE_UP: u32 = 57;
pub const MOVE_DOWN: u32 = 42;
pub const TOGGLE_FLIGHT: u32 = 33;
pub const TOGGLE_CULLING: u32 = 46;

/// Whether a key or button is down.
#[derive(Debug, Clone, Copy, PartialEq, Eq, Structural)]
pub enum ElementState {
    Pressed,
    Released,
}

/// The movement keys held, as the physics reads them.
#[derive(Debug, Clone, Copy, PartialEq, Eq, Structural)]
pub struct MovementKeys {
    pub key_move_forward: bool,
    pub key_move_left: bool,
    pub key_move_backward: bool,
    pub key_move_right: bool,
    pub key_move_up: bool,
    pub key_move_down: bool,
    pub flying: bool,
}

/// Last known state of each key, by scancode, and of each mouse button,
/// by button number; the modifier keys as a bit set; two toggles.
pub struct InputState {
    pub keys: HashMap<u32, ElementState>,
    pub mouse_buttons: HashMap<u16, ElementState>,
    pub modifiers_state: u32,
    pub flying: bool,
    pub enable_culling: bool,
}

/// State of key `k` in `keys`: released when never seen.
pub open spec fn key_state(keys: Map<u32, ElementState>, k: u32) -> ElementState {
    if keys.contains_key(k) { keys[k] } else { ElementState::Released }
}

impl InputState {
    pub fn new() -> (r: InputState)
        ensures
            r.keys@ == Map::<u32, ElementState>::empty(),
            r.mouse_buttons@ == Map::<u16, ElementState>::empty(),
            r.modifiers_state == 0,
            r.flying,
            r.enable_culling,
    {
        InputState { keys: HashMap::new(), mouse_buttons: HashMap::new(), modifiers_state: 0, flying: true, enable_culling: true }
    }

    /// Records key `key` as `state`. A key seen pressed before this event
    /// flips flight or culling if it is their toggle. Returns whether the
    /// key's state changed.
    pub fn process_keyboard_input(&mut self, key: u32, state: ElementState) -> (r: bool)
        ensures
            final(self).keys@ == old(self).keys@.insert(key, state),
            r == !(old(self).keys@.contains_key(key) && old(self).keys@[key] == state),
            final(self).flying == (old(self).flying != (key == TOGGLE_FLIGHT && key_state(old(self).keys@, key) == ElementState::Pressed)),
            final(self).enable_culling == (old(self).enable_culling != (key == TOGGLE_CULLING && key_state(old(self).keys@, key) == ElementState::Pressed)),
            final(self).mouse_buttons@ == old(self).mouse_buttons@,
            final(self).modifiers_state == old(self).modifiers_state,
    {
        let previous = match self.keys.get(&key) {
            Some(s) => Some(*s),
            None => None,
        };
        self.keys.insert(key, state);
        if previous == Some(ElementState::Pressed) {
            if key == TOGGLE_FLIGHT {
                self.flying = !self.flying;
            }
            if key == TOGGLE_CULLING {
                self.enable_culling = !self.enable_culling;
            }
        }
        previous != Some(state)
    }

    /// Records mouse button `button` as `state`; returns whether its state
    /// changed.
    pub fn process_mouse_input(&mut self, button: u16, state: ElementState) -> (r: bool)
        ensures
            final(self).mouse_buttons@ == old(self).mouse_buttons@.insert(button, state),
            r == !(old(self).mouse_buttons@.contains_key(button) && old(self).mouse_buttons@[button] == state),
            final(self).keys@ == old(self).keys@,
            final(self).modifiers_state == old(self).modifiers_state,
            final(self).flying == old(self).flying,
            final(self).enable_culling == old(self).enable_culling,
    {
        let previous = match self.mouse_buttons.get(&button) {
            Some(s) => Some(*s),
            None => None,
        };
        self.mouse_buttons.insert(button, state);
        previous != Some(state)
    }

    pub fn set_modifiers_state(&mut self, modifiers_state: u32)
        ensures
            final(self).modifiers_state == modifiers_state,
            final(self).keys@ == old(self).keys@,
            final(self).mouse_buttons@ == old(self).mouse_buttons@,
            final(self).flying == old(self).flying,
            final(self).enable_culling == old(self).enable_culling,
    {
        self.modifiers_state = modifiers_state;
    }

    pub fn get_modifiers_state(&self) -> (r: u32)
        ensures
            r == self.modifiers_state,
    {
        self.modifiers_state
    }

    pub fn get_key_state(&self, key: u32) -> (r: ElementState)
        ensures
            r == key_state(self.keys@, key),
    {
        match self.keys.get(&key) {
            Some(s) => *s,
            None => ElementState::Released,
        }
    }

    /// Forgets every key, button and modifier; the toggles stay.
    pub fn clear(&mut self)
        ensures
            final(self).keys@ == Map::<u32, ElementState>::empty(),
            final(self).mouse_buttons@ == Map::<u16, ElementState>::empty(),
            final(self).modifiers_state == 0,
            final(self).flying == old(self).flying,
            final(self).enable_culling == old(self).enable_culling,
    {
        self.keys.clear();
        self.mouse_buttons.clear();
        self.modifiers_state = 0;
    }

    fn is_key_pressed(&self, key: u32) -> (r: bool)
        ensures
            r == (key_state(self.keys@, key) == ElementState::Pressed),
    {
        match self.get_key_state(key) {
            ElementState::Pressed => true,
            ElementState::Released => false,
        }
    }

    /// The movement keys held, all released when movement is not allowed.
    pub fn get_physics_input(&self, allow_movement: bool) -> (r: MovementKeys)
        ensures
            r.key_move_forward == (allow_movement && key_state(self.keys@, MOVE_FORWARD) == ElementState::Pressed),
            r.key_move_left == (allow_movement && key_state(self.keys@, MOVE_LEFT) == ElementState::Pressed),
            r.key_move_backward == (allow_movement && key_state(self.keys@, MOVE_BACKWARD) == ElementState::Pressed),
            r.key_move_right == (allow_movement && key_state(self.keys@, MOVE_RIGHT) == ElementState::Pressed),
            r.key_move_up == (allow_movement && key_state(self.keys@, MOVE_UP) == ElementState::Pressed),
            r.key_move_down == (allow_movement && key_state(self.keys@, MOVE_DOWN) == ElementState::Pressed),
            r.flying == self.flying,
    {
        MovementKeys {
            key_move_forward: allow_movement && self.is_key_pressed(MOVE_FORWARD),
            key_move_left: allow_movement && self.is_key_pressed(MOVE_LEFT),
            key_move_backward: allow_movement && self.is_key_pressed(MOVE_BACKWARD),
            key_move_right: allow_movement && self.is_key_pressed(MOVE_RIGHT),
            key_move_up: allow_movement && self.is_key_pressed(MOVE_UP),
            key_move_down: allow_movement && self.is_key_pressed(MOVE_DOWN),
            flying: self.flying,
        }
    }
}

} // verus!
