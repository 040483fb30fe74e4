use vstd::prelude::*;
use vstd::string::StringExecFns;
use crate::editor::logger::LogMessage;
use crate::editor::message::Message;
use crate::editor::ui::UiState;

verus! {

/// Which screen of the editor is in front.
#[derive(Debug, Clone, Copy, PartialEq, Eq, Structural)]
pub enum AppState {
    ProjectSelection,
    Workspace,
}

/// How often `Message::Play` stands among the first `n` of `messages`.
pub open spec fn plays(messages: Seq<Message>, n: int) -> nat
    decreases n,
{
    if n <= 0 {
        0
    } else if messages[n - 1] == Message::Play {
        plays(messages, n - 1) + 1
    } else {
        plays(messages, n - 1)
    }
}

/// The editor shell: panel state, the messages raised since the last frame,
/// and the screen in front.
pub struct App {
    pub ui_state: UiState,
    pub message_queue: Vec<Message>,
    pub state: AppState,
}

impl App {
    pub fn new() -> (app: Self)
        ensures
            app.ui_state.is_initial(),
            app.message_queue@ == Seq::<Message>::empty(),
            app.state == AppState::Workspace,
    {
        Self { message_queue: Vec::new(), ui_state: UiState::new(), state: AppState::Workspace }
    }

    /// Queues `message` behind those already raised.
    pub fn add_message(&mut self, message: Message)
        ensures
            final(self).message_queue@ == old(self).message_queue@.push(message),
            final(self).ui_state == old(self).ui_state,
            final(self).state == old(self).state,
    {
        self.message_queue.push(message);
    }

    /// Drops every queued message.
    pub fn frame_init(&mut self)
        ensures
            final(self).message_queue@ == Seq::<Message>::empty(),
            final(self).ui_state == old(self).ui_state,
            final(self).state == old(self).state,
    {
        self.message_queue.clear();
    }

    /// Handles the queued messages in order and empties the queue. `Play`
    /// clears the log of the running game; the number of these requests is
    /// returned, and for each the caller builds and starts the game.
    /// `ClearLogger` empties `logs`, `QuiToProjectSelection` brings the
    /// project selection to the front, and `ProjectExport` opens the export
    /// window.
    pub fn handle_messages(&mut self, logs: &mut Vec<LogMessage>) -> (requests: usize)
        ensures
            requests == plays(old(self).message_queue@, old(self).message_queue@.len() as int),
            final(self).message_queue@ == Seq::<Message>::empty(),
            final(self).ui_state.play_log@ == (if old(self).message_queue@.contains(
                Message::Play,
            ) {
                Seq::<char>::empty()
            } else {
                old(self).ui_state.play_log@
            }),
            final(logs)@ == (if old(self).message_queue@.contains(Message::ClearLogger) {
                Seq::<LogMessage>::empty()
            } else {
                old(logs)@
            }),
            final(self).state == (if old(self).message_queue@.contains(
                Message::QuiToProjectSelection,
            ) {
                AppState::ProjectSelection
            } else {
                old(self).state
            }),
            final(self).ui_state.display_export_setup_window == (old(
                self
            ).ui_state.display_export_setup_window || old(self).message_queue@.contains(
                Message::ProjectExport,
            )),
            final(self).ui_state.log_filter == old(self).ui_state.log_filter,
            final(self).ui_state.display_settings_window == old(self).ui_state.display_settings_window,
    {
        let ghost queue = self.message_queue@;
        let count = self.message_queue.len();
        let mut requests: usize = 0;
        let mut i: usize = 0;
        while i < self.message_queue.len()
            invariant
                i <= queue.len(),
                count == queue.len(),
                self.message_queue@ == queue,
                requests == plays(queue, i as int),
                requests <= i,
                self.ui_state.play_log@ == (if queue.take(i as int).contains(Message::Play) {
                    Seq::<char>::empty()
                } else {
                    old(self).ui_state.play_log@
                }),
                logs@ == (if queue.take(i as int).contains(Message::ClearLogger) {
                    Seq::<LogMessage>::empty()
                } else {
                    old(logs)@
                }),
                self.state == (if queue.take(i as int).contains(Message::QuiToProjectSelection) {
                    AppState::ProjectSelection
                } else {
                    old(self).state
                }),
                self.ui_state.display_export_setup_window == (old(
                    self
                ).ui_state.display_export_setup_window || queue.take(i as int).contains(
                    Message::ProjectExport,
                )),
                self.ui_state.log_filter == old(self).ui_state.log_filter,
                self.ui_state.display_settings_window == old(self).ui_state.display_settings_window,
            decreases queue.len() - i,
        {
            let message = self.message_queue[i];
            proof {
                let before = queue.take(i as int);
                let now = queue.take(i + 1);
                assert(now =~= before.push(message));
                assert forall|m: Message| now.contains(m) == (before.contains(m) || m == message) by {
                    if before.contains(m) {
                        let k = choose|k: int| 0 <= k < before.len() && before[k] == m;
                        assert(now[k] == m);
                    }
                    if m == message {
                        assert(now[i as int] == m);
                    }
                }
            }
            match message {
                Message::Play => {
                    self.ui_state.play_log = String::new();
                    requests = requests + 1;
                },
                Message::ClearLogger => {
                    logs.clear();
                },
                Message::QuiToProjectSelection => {
                    self.state = AppState::ProjectSelection;
                },
                Message::ProjectSettings => {},
                Message::ProjectExport => {
                    self.ui_state.display_export_setup_window = true;
                },
                Message::Settings => {},
            }
            i += 1;
        }
        assert(queue.take(i as int) =~= queue);
        self.message_queue.clear();
        requests
    }

    /// Puts `line`, as a line of its own, behind the log of the running
    /// game.
    pub fn record_line(&mut self, line: &str)
        ensures
            final(self).ui_state.play_log@ == old(self).ui_state.play_log@ + line@ + seq!['\n'],
            final(self).ui_state.log_filter == old(self).ui_state.log_filter,
            final(self).ui_state.display_export_setup_window == old(self).ui_state.display_export_setup_window,
            final(self).ui_state.display_settings_window == old(self).ui_state.display_settings_window,
            final(self).message_queue == old(self).message_queue,
            final(self).state == old(self).state,
    {
        proof {
            reveal_strlit("\n");
        }
        self.ui_state.play_log.append(line);
        self.ui_state.play_log.append("\n");
        assert("\n"@ =~= seq!['\n']);
    }
}

} // verus!
