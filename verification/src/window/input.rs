//! Keys, buttons and touches as the engine sees them, and the input of one
//! frame.

use vstd::prelude::*;
use crate::window::keyboard::{KeyboardInput, VirtualKeyCode};

verus! {

/// Whether a key or button went down or came up.
#[derive(Debug, PartialOrd, PartialEq, Eq, Hash, Clone, Copy, Structural)]
pub enum KeyState {
    Pressed,
    Released,
}

/// A button of the pointing device.
#[derive(Debug, PartialOrd, PartialEq, Eq, Hash, Clone, Copy, Structural)]
pub enum MouseButton {
    Left,
    Right,
    Middle,
    Other(u16),
}

/// One change of a mouse button.
#[derive(Debug, PartialOrd, PartialEq, Eq, Hash, Clone, Copy, Structural)]
pub struct MouseInput {
    pub state: KeyState,
    pub button: MouseButton,
}

/// The stage of a touch gesture.
#[derive(Debug, PartialOrd, PartialEq, Eq, Hash, Clone, Copy, Structural)]
pub enum TouchPhase {
    Started,
    Moved,
    Ended,
    Cancelled,
}

/// One change of a touch, known by the finger's number.
#[derive(Debug, PartialEq, Eq, Clone, Copy, Structural)]
pub struct TouchInput {
    pub id: u64,
    pub phase: TouchPhase,
}

/// Whether `key` stands in `keys`.
pub fn holds_key(keys: &Vec<VirtualKeyCode>, key: &VirtualKeyCode) -> (found: bool)
    ensures
        found == keys@.contains(*key),
{
    let mut i: usize = 0;
    while i < keys.len()
        invariant
            i <= keys@.len(),
            forall|k: int| 0 <= k < i ==> keys@[k] != *key,
        decreases keys@.len() - i,
    {
        if keys[i] == *key {
            return true;
        }
        i += 1;
    }
    false
}

/// Whether `button` stands in `buttons`.
pub fn holds_button(buttons: &Vec<MouseButton>, button: &MouseButton) -> (found: bool)
    ensures
        found == buttons@.contains(*button),
{
    let mut i: usize = 0;
    while i < buttons.len()
        invariant
            i <= buttons@.len(),
            forall|k: int| 0 <= k < i ==> buttons@[k] != *button,
        decreases buttons@.len() - i,
    {
        if buttons[i] == *button {
            return true;
        }
        i += 1;
    }
    false
}

/// Whether `press` stands in `presses`.
pub fn holds_press(presses: &Vec<KeyboardInput>, press: &KeyboardInput) -> (found: bool)
    ensures
        found == presses@.contains(*press),
{
    let mut i: usize = 0;
    while i < presses.len()
        invariant
            i <= presses@.len(),
            forall|k: int| 0 <= k < i ==> presses@[k] != *press,
        decreases presses@.len() - i,
    {
        if presses[i] == *press {
            return true;
        }
        i += 1;
    }
    false
}

/// The input of one frame. Each list holds an item once, in the order in
/// which the items came.
#[derive(Debug, Clone)]
pub struct InputManager {
    /// The fingers that are down.
    pub touch_presses: Vec<u64>,
    /// The changes of touches in this frame.
    pub touches: Vec<TouchInput>,
    /// The mouse buttons that are down.
    pub mouse_button: Vec<MouseButton>,
    /// The changes of mouse buttons in this frame.
    pub mouse_presses: Vec<MouseInput>,
    /// The changes of keys in this frame.
    pub keyboard_presses: Vec<KeyboardInput>,
    /// The keys that are down.
    pub keyboard_key_presses: Vec<VirtualKeyCode>,
}

impl InputManager {
    /// No list holds anything.
    pub open spec fn is_empty(&self) -> bool {
        &&& self.touch_presses@.len() == 0
        &&& self.touches@.len() == 0
        &&& self.mouse_button@.len() == 0
        &&& self.mouse_presses@.len() == 0
        &&& self.keyboard_presses@.len() == 0
        &&& self.keyboard_key_presses@.len() == 0
    }

    pub fn new() -> (input: Self)
        ensures
            input.is_empty(),
    {
        Self {
            touch_presses: Vec::new(),
            touches: Vec::new(),
            mouse_button: Vec::new(),
            mouse_presses: Vec::new(),
            keyboard_presses: Vec::new(),
            keyboard_key_presses: Vec::new(),
        }
    }

    /// Forgets the changes of the frame; what is held down stays.
    pub fn reset(&mut self)
        ensures
            final(self).touches@.len() == 0,
            final(self).mouse_presses@.len() == 0,
            final(self).keyboard_presses@.len() == 0,
            final(self).touch_presses == old(self).touch_presses,
            final(self).mouse_button == old(self).mouse_button,
            final(self).keyboard_key_presses == old(self).keyboard_key_presses,
    {
        self.touches.clear();
        self.mouse_presses.clear();
        self.keyboard_presses.clear();
    }

    /// The changes of touches in this frame.
    pub fn touches(&self) -> (touches: &Vec<TouchInput>)
        ensures
            touches == &self.touches,
    {
        &self.touches
    }

    /// The mouse buttons that are down.
    pub fn mouse_buttons(&self) -> (buttons: &Vec<MouseButton>)
        ensures
            buttons == &self.mouse_button,
    {
        &self.mouse_button
    }

    /// The keys that are down.
    pub fn keyboard_pressed_key(&self) -> (keys: &Vec<VirtualKeyCode>)
        ensures
            keys == &self.keyboard_key_presses,
    {
        &self.keyboard_key_presses
    }

    pub fn is_key_pressed(&self, virtual_keycode: &VirtualKeyCode) -> (pressed: bool)
        ensures
            pressed == self.keyboard_key_presses@.contains(*virtual_keycode),
    {
        holds_key(&self.keyboard_key_presses, virtual_keycode)
    }

    pub fn is_mouse_pressed(&self, mouse_button: &MouseButton) -> (pressed: bool)
        ensures
            pressed == self.mouse_button@.contains(*mouse_button),
    {
        holds_button(&self.mouse_button, mouse_button)
    }
}

} // verus!
