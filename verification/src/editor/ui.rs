use vstd::prelude::*;

verus! {

/// What the panels of the editor currently show.
pub struct UiState {
    pub log_filter: String,
    pub play_log: String,
    pub display_export_setup_window: bool,
    pub display_settings_window: bool,
}

impl UiState {
    /// The state of a freshly opened editor: empty texts, every window closed.
    pub open spec fn is_initial(&self) -> bool {
        &&& self.log_filter@ == Seq::<char>::empty()
        &&& self.play_log@ == Seq::<char>::empty()
        &&& !self.display_export_setup_window
        &&& !self.display_settings_window
    }

    pub fn new() -> (state: Self)
        ensures
            state.is_initial(),
    {
        Self {
            log_filter: String::new(),
            play_log: String::new(),
            display_export_setup_window: false,
            display_settings_window: false,
        }
    }
}

impl Default for UiState {
    fn default() -> (state: Self)
        ensures
            state.is_initial(),
    {
        Self::new()
    }
}

} // verus!
