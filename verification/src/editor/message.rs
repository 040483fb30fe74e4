use vstd::prelude::*;

verus! {

/// A request raised by the user interface during one frame and handled at the
/// start of the next.
#[derive(Debug, Clone, Copy, PartialEq, Eq, Structural)]
pub enum Message {
    Play,
    ClearLogger,
    QuiToProjectSelection,
    ProjectSettings,
    ProjectExport,
    Settings,
}

} // verus!
