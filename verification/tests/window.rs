use tempeh::audio::{Error, SUCCESS};
use tempeh::window::event::{on_event, InputEvent, InputProcessor, LoopAction, LoopEvent};
use tempeh::window::input::{
    holds_button, holds_key, holds_press, InputManager, KeyState, MouseButton, MouseInput,
    TouchInput, TouchPhase,
};
use tempeh::window::keyboard::{KeyboardInput, VirtualKeyCode};
use tempeh::window::ScreenSize;

fn key(state: KeyState, scancode: u32, code: Option<VirtualKeyCode>) -> InputEvent {
    InputEvent::Keyboard { state, scancode, virtual_keycode: code }
}

#[test]
fn new_input_manager_is_empty() {
    let input = InputManager::new();
    assert!(input.touches().is_empty());
    assert!(input.mouse_buttons().is_empty());
    assert!(input.keyboard_pressed_key().is_empty());
    assert!(input.keyboard_presses.is_empty());
    assert!(!input.is_key_pressed(&VirtualKeyCode::A));
    assert!(!input.is_mouse_pressed(&MouseButton::Left));
}

#[test]
fn pressed_keys_and_buttons_are_found() {
    let mut input = InputManager::new();
    input.keyboard_key_presses.push(VirtualKeyCode::W);
    input.keyboard_key_presses.push(VirtualKeyCode::Escape);
    input.mouse_button.push(MouseButton::Other(4));
    assert!(input.is_key_pressed(&VirtualKeyCode::Escape));
    assert!(!input.is_key_pressed(&VirtualKeyCode::S));
    assert!(input.is_mouse_pressed(&MouseButton::Other(4)));
    assert!(!input.is_mouse_pressed(&MouseButton::Other(5)));
    assert!(!input.is_mouse_pressed(&MouseButton::Middle));
    assert!(holds_key(&vec![VirtualKeyCode::Key1], &VirtualKeyCode::Key1));
    assert!(!holds_button(&vec![], &MouseButton::Right));
}

#[test]
fn reset_forgets_the_changes_and_keeps_what_is_held() {
    let mut input = InputManager::new();
    input.touch_presses.push(3);
    input.touches.push(TouchInput { id: 3, phase: TouchPhase::Started });
    input.mouse_button.push(MouseButton::Left);
    input.mouse_presses.push(MouseInput { state: KeyState::Pressed, button: MouseButton::Left });
    input.keyboard_presses.push(KeyboardInput {
        state: KeyState::Pressed,
        scancode: 30,
        virtual_keycode: Some(VirtualKeyCode::A),
    });
    input.keyboard_key_presses.push(VirtualKeyCode::A);
    input.reset();
    assert!(input.touches.is_empty());
    assert!(input.mouse_presses.is_empty());
    assert!(input.keyboard_presses.is_empty());
    assert_eq!(input.touch_presses, vec![3]);
    assert_eq!(input.mouse_button, vec![MouseButton::Left]);
    assert_eq!(input.keyboard_key_presses, vec![VirtualKeyCode::A]);
}

#[test]
fn processor_notes_each_change_of_a_key_once() {
    let mut processor = InputProcessor::new();
    let down = key(KeyState::Pressed, 30, Some(VirtualKeyCode::A));
    let up = key(KeyState::Released, 30, Some(VirtualKeyCode::A));
    let unknown = key(KeyState::Pressed, 99, None);
    processor.handle_input(&down);
    processor.handle_input(&down);
    processor.handle_input(&up);
    processor.handle_input(&unknown);
    processor.handle_input(&InputEvent::Mouse { state: KeyState::Pressed, button: MouseButton::Left });
    processor.handle_input(&InputEvent::Touch { id: 1, phase: TouchPhase::Moved });
    processor.handle_input(&InputEvent::Other);
    let presses = &processor.input_manager.keyboard_presses;
    assert_eq!(presses.len(), 3);
    assert_eq!(
        presses[0],
        KeyboardInput {
            state: KeyState::Pressed,
            scancode: 30,
            virtual_keycode: Some(VirtualKeyCode::A)
        }
    );
    assert_eq!(presses[1].state, KeyState::Released);
    assert_eq!(presses[2].virtual_keycode, None);
    assert!(holds_press(presses, &presses[1]));
    assert!(processor.input_manager.mouse_presses.is_empty());
    assert!(processor.input_manager.touches.is_empty());
    assert!(!processor.input_manager.is_key_pressed(&VirtualKeyCode::A));
    processor.reset();
    assert!(processor.input_manager.keyboard_presses.is_empty());
}

#[test]
fn runner_decides_by_the_event() {
    let mut processor = InputProcessor::new();
    let size = ScreenSize { width: 800, height: 600 };
    assert_eq!(on_event(&mut processor, &LoopEvent::CloseRequested), LoopAction::Exit);
    assert_eq!(on_event(&mut processor, &LoopEvent::Resized(size)), LoopAction::Resize(size));
    assert_eq!(
        on_event(&mut processor, &LoopEvent::Resized(ScreenSize { width: 0, height: 600 })),
        LoopAction::Continue
    );
    assert_eq!(
        on_event(&mut processor, &LoopEvent::Resized(ScreenSize { width: 800, height: 0 })),
        LoopAction::Continue
    );
    assert_eq!(on_event(&mut processor, &LoopEvent::RedrawRequested), LoopAction::Tick);
    assert_eq!(on_event(&mut processor, &LoopEvent::MainEventsCleared), LoopAction::RequestRedraw);
    assert_eq!(on_event(&mut processor, &LoopEvent::Other), LoopAction::Continue);
    assert!(processor.input_manager.keyboard_presses.is_empty());
    let down = key(KeyState::Pressed, 17, Some(VirtualKeyCode::W));
    assert_eq!(on_event(&mut processor, &LoopEvent::Window(down)), LoopAction::Continue);
    assert_eq!(processor.input_manager.keyboard_presses.len(), 1);
}

#[test]
fn audio_result_codes_map_to_errors() {
    assert_eq!(SUCCESS, 0);
    assert_eq!(Error::from(0), Ok(()));
    assert_eq!(Error::from(-1), Err(Error::UnknownError));
    assert_eq!(Error::from(-2), Err(Error::InvalidArgs));
    assert_eq!(Error::from(-52), Err(Error::MemoryAlreadyMapped));
    assert_eq!(Error::from(-100), Err(Error::FormatNotSupported));
    assert_eq!(Error::from(-107), Err(Error::Loop));
    assert_eq!(Error::from(-200), Err(Error::DeviceNotInitialized));
    assert_eq!(Error::from(-303), Err(Error::FailedToStopBackendDevice));
    assert_eq!(Error::from_i32(-22), Some(Error::UNAVAILABLE));
    assert_eq!(Error::from_i32(0), None);
    assert_eq!(Error::from_i32(1), None);
    assert_eq!(Error::from_i32(-53), None);
    assert_eq!(Error::from_i32(-108), None);
    assert_eq!(Error::from_i32(i32::MIN), None);
}

#[test]
fn audio_error_codes_round_trip() {
    for code in (-303..0).rev() {
        if let Some(error) = Error::from_i32(code) {
            assert_eq!(error.code(), code);
        }
    }
    assert_eq!(Error::Timeout.code(), -34);
    assert_eq!(Error::NoBackend.code(), -103);
    let known = (-400..400).filter(|c| Error::from_i32(*c).is_some()).count();
    assert_eq!(known, 67);
}
