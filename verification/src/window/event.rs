//! What the window reports, and what the input of a frame makes of it.

use vstd::prelude::*;
use crate::window::input::{holds_press, InputManager, KeyState, MouseButton, TouchPhase};
use crate::window::keyboard::{KeyboardInput, VirtualKeyCode};
use crate::window::ScreenSize;

verus! {

/// An event of the window that bears on the input.
#[derive(Debug, Clone, Copy, PartialEq, Eq, Structural)]
pub enum InputEvent {
    Keyboard { state: KeyState, scancode: u32, virtual_keycode: Option<VirtualKeyCode> },
    Mouse { state: KeyState, button: MouseButton },
    Touch { id: u64, phase: TouchPhase },
    /// Any other event of the window.
    Other,
}

/// Gathers the input of a frame from the events of the window.
pub struct InputProcessor {
    pub input_manager: InputManager,
}

impl InputProcessor {
    pub fn new() -> (processor: Self)
        ensures
            processor.input_manager.is_empty(),
    {
        Self { input_manager: InputManager::new() }
    }

    /// Forgets the changes of the frame; what is held down stays.
    pub fn reset(&mut self)
        ensures
            final(self).input_manager.touches@.len() == 0,
            final(self).input_manager.mouse_presses@.len() == 0,
            final(self).input_manager.keyboard_presses@.len() == 0,
            final(self).input_manager.touch_presses == old(self).input_manager.touch_presses,
            final(self).input_manager.mouse_button == old(self).input_manager.mouse_button,
            final(self).input_manager.keyboard_key_presses == old(self).input_manager.keyboard_key_presses,
    {
        self.input_manager.reset();
    }

    /// Takes note of `event`: a change of a key joins the changes of the
    /// frame unless the same change is among them already. Every other event
    /// leaves the input as it is.
    pub fn handle_input(&mut self, event: &InputEvent)
        ensures
            final(self).input_manager.keyboard_presses@ == (match *event {
                InputEvent::Keyboard { state, scancode, virtual_keycode } => {
                    let press = KeyboardInput { state, scancode, virtual_keycode };
                    if old(self).input_manager.keyboard_presses@.contains(press) {
                        old(self).input_manager.keyboard_presses@
                    } else {
                        old(self).input_manager.keyboard_presses@.push(press)
                    }
                },
                _ => old(self).input_manager.keyboard_presses@,
            }),
            old(self).input_manager.keyboard_presses@.no_duplicates() ==> final(
                self
            ).input_manager.keyboard_presses@.no_duplicates(),
            final(self).input_manager.touch_presses == old(self).input_manager.touch_presses,
            final(self).input_manager.touches == old(self).input_manager.touches,
            final(self).input_manager.mouse_button == old(self).input_manager.mouse_button,
            final(self).input_manager.mouse_presses == old(self).input_manager.mouse_presses,
            final(self).input_manager.keyboard_key_presses == old(self).input_manager.keyboard_key_presses,
    {
        match *event {
            InputEvent::Keyboard { state, scancode, virtual_keycode } => {
                let press = KeyboardInput { state, scancode, virtual_keycode };
                if !holds_press(&self.input_manager.keyboard_presses, &press) {
                    self.input_manager.keyboard_presses.push(press);
                }
            },
            InputEvent::Mouse { .. } => {},
            InputEvent::Touch { .. } => {},
            InputEvent::Other => {},
        }
    }
}

/// An event of the event loop.
#[derive(Debug, Clone, Copy, PartialEq, Eq, Structural)]
pub enum LoopEvent {
    /// The user asked to close the window.
    CloseRequested,
    /// The drawing surface has a new size.
    Resized(ScreenSize),
    /// An event of the window that may bear on the input.
    Window(InputEvent),
    /// The window is to be drawn again.
    RedrawRequested,
    /// Every event that was waiting has been handed out.
    MainEventsCleared,
    /// Any other event.
    Other,
}

/// What the runner does about an event, besides taking note of the input.
#[derive(Debug, Clone, Copy, PartialEq, Eq, Structural)]
pub enum LoopAction {
    /// Nothing.
    Continue,
    /// Leave the event loop.
    Exit,
    /// Give the renderer the new size of the drawing surface.
    Resize(ScreenSize),
    /// Run one tick of the engine on the input of the frame, then forget the
    /// changes of the frame.
    Tick,
    /// Ask for the window to be drawn again.
    RequestRedraw,
}

/// What `event` asks of the runner. A new size counts only where neither
/// side is zero.
pub open spec fn action_for(event: LoopEvent) -> LoopAction {
    match event {
        LoopEvent::CloseRequested => LoopAction::Exit,
        LoopEvent::Resized(size) => if size.height != 0 && size.width != 0 {
            LoopAction::Resize(size)
        } else {
            LoopAction::Continue
        },
        LoopEvent::Window(_) => LoopAction::Continue,
        LoopEvent::RedrawRequested => LoopAction::Tick,
        LoopEvent::MainEventsCleared => LoopAction::RequestRedraw,
        LoopEvent::Other => LoopAction::Continue,
    }
}

/// The event of the window that `event` hands to the input, if it is an
/// event of the window at all.
pub open spec fn input_of(event: LoopEvent) -> Option<InputEvent> {
    match event {
        LoopEvent::CloseRequested => Some(InputEvent::Other),
        LoopEvent::Resized(_) => Some(InputEvent::Other),
        LoopEvent::Window(input) => Some(input),
        _ => None,
    }
}

/// Decides what the runner does about `event`, and lets `processor` take
/// note of it where it is an event of the window.
pub fn on_event(processor: &mut InputProcessor, event: &LoopEvent) -> (action: LoopAction)
    ensures
        action == action_for(*event),
        final(processor).input_manager.keyboard_presses@ == (match input_of(*event) {
            Some(InputEvent::Keyboard { state, scancode, virtual_keycode }) => {
                let press = KeyboardInput { state, scancode, virtual_keycode };
                if old(processor).input_manager.keyboard_presses@.contains(press) {
                    old(processor).input_manager.keyboard_presses@
                } else {
                    old(processor).input_manager.keyboard_presses@.push(press)
                }
            },
            _ => old(processor).input_manager.keyboard_presses@,
        }),
        final(processor).input_manager.touch_presses == old(processor).input_manager.touch_presses,
        final(processor).input_manager.touches == old(processor).input_manager.touches,
        final(processor).input_manager.mouse_button == old(processor).input_manager.mouse_button,
        final(processor).input_manager.mouse_presses == old(processor).input_manager.mouse_presses,
        final(processor).input_manager.keyboard_key_presses == old(processor).input_manager.keyboard_key_presses,
{
    match *event {
        LoopEvent::CloseRequested => {
            processor.handle_input(&InputEvent::Other);
            LoopAction::Exit
        },
        LoopEvent::Resized(size) => {
            processor.handle_input(&InputEvent::Other);
            if size.height != 0 && size.width != 0 {
                LoopAction::Resize(size)
            } else {
                LoopAction::Continue
            }
        },
        LoopEvent::Window(input) => {
            processor.handle_input(&input);
            LoopAction::Continue
        },
        LoopEvent::RedrawRequested => LoopAction::Tick,
        LoopEvent::MainEventsCleared => LoopAction::RequestRedraw,
        LoopEvent::Other => LoopAction::Continue,
    }
}

} // verus!
