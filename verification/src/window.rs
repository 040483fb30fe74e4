//! Plain-data models of what the windowing layer reports: the size of the
//! drawing surface and the input seen during one frame.

use vstd::prelude::*;

pub mod event;
pub mod input;
pub mod keyboard;

verus! {

/// The size of the drawing surface in physical pixels.
#[derive(Debug, Clone, Copy, PartialEq, Eq, Structural)]
pub struct ScreenSize {
    pub width: u32,
    pub height: u32,
}

/// A window that the engine can run in.
pub trait TempehWindow {
    /// What the platform knows the window by.
    type Window;

    fn focus(&mut self);

    fn set_title(&mut self, title: &str);

    fn get_window_size(&self) -> ScreenSize;

    fn get_raw_window_handle(&self) -> &Self::Window;
}

} // verus!
