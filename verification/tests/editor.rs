use tempeh::editor::app::{App, AppState};
use tempeh::editor::filetree::{is_walked, FileTree, Kind};
use tempeh::editor::logger::{
    append_line, log_text, ClampedVec, Filter, FilterContains, LogMessage, Logger,
    CLAMPED_VEC_CAPACITY,
};
use tempeh::editor::message::Message;
use tempeh::editor::project::Project;
use tempeh::editor::trace::{UndoTrace, MAX_TRACE};
use tempeh::editor::ui::UiState;

struct OnlyShort;

impl Filter for OnlyShort {
    fn is_pass(&self, string: &str) -> bool {
        string.len() < 4
    }
}

#[test]
fn app_starts_in_workspace_with_empty_queue() {
    let app = App::new();
    assert!(app.message_queue.is_empty());
    assert_eq!(app.state, AppState::Workspace);
    assert!(app.ui_state.log_filter.is_empty());
    assert!(!app.ui_state.display_export_setup_window);
}

#[test]
fn app_queues_messages_in_order_and_clears_them() {
    let mut app = App::new();
    app.add_message(Message::Play);
    app.add_message(Message::Settings);
    assert_eq!(app.message_queue, vec![Message::Play, Message::Settings]);
    app.frame_init();
    assert!(app.message_queue.is_empty());
}

#[test]
fn ui_state_default_is_new() {
    let a = UiState::new();
    let b = UiState::default();
    assert_eq!(a.play_log, b.play_log);
    assert_eq!(a.display_settings_window, b.display_settings_window);
}

#[test]
fn project_open_replaces_path() {
    let mut project = Project::new();
    assert_eq!(project.path(), None);
    project.open(String::from("/work/a"));
    project.open(String::from("/work/b"));
    assert_eq!(project.path(), Some(&String::from("/work/b")));
}

#[test]
fn undo_trace_keeps_order() {
    let mut trace = UndoTrace::new();
    trace.push(Message::Play);
    trace.push(Message::ProjectExport);
    assert_eq!(trace.len(), 2);
    assert_eq!(trace.get(0), Some(Message::Play));
    assert_eq!(trace.get(1), Some(Message::ProjectExport));
    assert_eq!(trace.get(2), None);
}

#[test]
fn clamped_vec_drops_oldest_at_capacity() {
    let mut v: Vec<u32> = Vec::new_clamped_capacity();
    assert!(v.is_empty());
    for i in 0..400u32 {
        v.push_clamped(i);
    }
    assert_eq!(v.len(), 400);
    assert_eq!(v[0], 0);
    v.push_clamped(400);
    assert_eq!(v.len(), 400);
    assert_eq!(v[0], 1);
    assert_eq!(v[399], 400);
}

#[test]
fn filter_contains_matches_substrings_only() {
    let filter = FilterContains { string: "core" };
    assert!(filter.is_pass("tempeh_core::app"));
    assert!(filter.is_pass("core"));
    assert!(!filter.is_pass("tempeh_cor"));
    assert!(!filter.is_pass(""));
    let any = FilterContains { string: "" };
    assert!(any.is_pass(""));
}

#[test]
fn logger_without_filter_keeps_every_line() {
    let logger = Logger { filter: None };
    let mut lines: Vec<LogMessage> = Vec::new();
    logger.log(&mut lines, "a", String::from("one"));
    logger.log(&mut lines, "b", String::from("two"));
    assert_eq!(lines.len(), 2);
    assert_eq!(lines[1].target, "b");
    assert_eq!(lines[1].message, "two");
}

#[test]
fn logger_with_filter_drops_other_targets() {
    let logger = Logger { filter: Some(Box::new(OnlyShort)) };
    let mut lines: Vec<LogMessage> = Vec::new();
    logger.log(&mut lines, "abc", String::from("kept"));
    logger.log(&mut lines, "abcd", String::from("dropped"));
    assert_eq!(lines.len(), 1);
    assert_eq!(lines[0].message, "kept");
}

#[test]
fn handle_messages_applies_each_message_and_empties_the_queue() {
    let mut app = App::new();
    let mut logs = vec![LogMessage { target: String::from("t"), message: String::from("m") }];
    app.record_line("old output");
    app.add_message(Message::ProjectExport);
    app.add_message(Message::Settings);
    app.add_message(Message::ProjectSettings);
    assert_eq!(app.handle_messages(&mut logs), 0);
    assert!(app.message_queue.is_empty());
    assert!(app.ui_state.display_export_setup_window);
    assert!(!app.ui_state.display_settings_window);
    assert_eq!(app.state, AppState::Workspace);
    assert_eq!(app.ui_state.play_log, "old output\n");
    assert_eq!(logs.len(), 1);

    app.add_message(Message::Play);
    app.add_message(Message::ClearLogger);
    app.add_message(Message::Play);
    app.add_message(Message::QuiToProjectSelection);
    assert_eq!(app.handle_messages(&mut logs), 2);
    assert!(app.message_queue.is_empty());
    assert_eq!(app.ui_state.play_log, "");
    assert!(logs.is_empty());
    assert_eq!(app.state, AppState::ProjectSelection);
    assert!(app.ui_state.display_export_setup_window);
    assert_eq!(app.handle_messages(&mut logs), 0);
    assert_eq!(app.state, AppState::ProjectSelection);
}

#[test]
fn record_line_appends_a_line() {
    let mut app = App::new();
    app.record_line("first");
    app.record_line("");
    app.record_line("third");
    assert_eq!(app.ui_state.play_log, "first\n\nthird\n");
}

#[test]
fn logger_clamps_its_buffer() {
    let logger = Logger { filter: Some(Box::new(FilterContains { string: "keep" })) };
    let mut lines: Vec<LogMessage> = Vec::new_clamped_capacity();
    for i in 0..401 {
        logger.log(&mut lines, "keep::it", format!("{}", i));
        logger.log(&mut lines, "drop::it", format!("{}", i));
    }
    assert_eq!(lines.len(), CLAMPED_VEC_CAPACITY);
    assert_eq!(lines[0].message, "1");
    assert_eq!(lines[399].message, "400");
    assert_eq!(lines[399].target, "keep::it");
}

#[test]
fn log_text_shows_the_lines_that_hold_the_filter_in_lower_case() {
    let logs = vec![
        LogMessage { target: String::from("core"), message: String::from("Started ENGINE") },
        LogMessage { target: String::from("audio"), message: String::from("no device") },
        LogMessage { target: String::from("wgpu"), message: String::from("engine lost") },
    ];
    assert_eq!(log_text(&logs, "engine"), "[core] Started ENGINE\n[wgpu] engine lost\n");
    assert_eq!(
        log_text(&logs, ""),
        "[core] Started ENGINE\n[audio] no device\n[wgpu] engine lost\n"
    );
    // The filter itself is taken as it is.
    assert_eq!(log_text(&logs, "ENGINE"), "");
    assert_eq!(log_text(&vec![], "x"), "");
}

#[test]
fn append_line_takes_the_lowered_message_as_given() {
    let entry = LogMessage { target: String::from("t"), message: String::from("Hello") };
    let mut text = String::from(">");
    append_line(&mut text, &entry, "hello", "ell");
    assert_eq!(text, ">[t] Hello\n");
    append_line(&mut text, &entry, "hello", "Hello");
    assert_eq!(text, ">[t] Hello\n");
    append_line(&mut text, &entry, "", "");
    assert_eq!(text, ">[t] Hello\n[t] Hello\n");
}

#[test]
fn undo_trace_has_no_limit_below_the_machine_word() {
    assert_eq!(MAX_TRACE, usize::MAX);
    let mut trace = UndoTrace::new();
    for _ in 0..1000 {
        trace.push(Message::Settings);
    }
    trace.push(Message::Play);
    assert_eq!(trace.len(), 1001);
    assert_eq!(trace.get(0), Some(Message::Settings));
    assert_eq!(trace.get(1000), Some(Message::Play));
}

fn path(names: &[&str]) -> Vec<String> {
    names.iter().map(|n| n.to_string()).collect()
}

#[test]
fn file_tree_starts_empty() {
    let tree = FileTree::new();
    assert!(tree.entries.is_empty());
    assert_eq!(tree.kind(&path(&["a"])), None);
    assert_eq!(tree.kind(&path(&[])), None);
}

#[test]
fn file_tree_insert_makes_directories_on_the_way_and_a_file_at_the_end() {
    let mut tree = FileTree::new();
    tree.insert(&path(&["src", "ui", "mod.rs"]));
    assert_eq!(tree.kind(&path(&["src"])), Some(Kind::Directory));
    assert_eq!(tree.kind(&path(&["src", "ui"])), Some(Kind::Directory));
    assert_eq!(tree.kind(&path(&["src", "ui", "mod.rs"])), Some(Kind::File));
    assert_eq!(tree.kind(&path(&["src", "ui", "mod.rs", "x"])), None);
    assert_eq!(tree.kind(&path(&["ui"])), None);
    tree.insert(&path(&["src", "main.rs"]));
    tree.insert(&path(&["Cargo.toml"]));
    assert_eq!(tree.kind(&path(&["src", "main.rs"])), Some(Kind::File));
    assert_eq!(tree.kind(&path(&["Cargo.toml"])), Some(Kind::File));
    assert_eq!(tree.kind(&path(&["src", "ui", "mod.rs"])), Some(Kind::File));
    assert_eq!(tree.entries.len(), 2);
    assert_eq!(tree.position(&String::from("Cargo.toml")), Some(1));
    assert_eq!(tree.position(&String::from("ui")), None);
}

#[test]
fn file_tree_insert_turns_what_stood_there_into_a_directory() {
    let mut tree = FileTree::new();
    tree.insert(&path(&["a"]));
    assert_eq!(tree.kind(&path(&["a"])), Some(Kind::File));
    // Inserted once more, the name stands for a directory without entries.
    tree.insert(&path(&["a"]));
    assert_eq!(tree.kind(&path(&["a"])), Some(Kind::Directory));
    // A file on the way to a longer path becomes a directory too.
    tree.insert(&path(&["b"]));
    tree.insert(&path(&["b", "c"]));
    assert_eq!(tree.kind(&path(&["b"])), Some(Kind::Directory));
    assert_eq!(tree.kind(&path(&["b", "c"])), Some(Kind::File));
    tree.insert(&path(&["b", "c"]));
    assert_eq!(tree.kind(&path(&["b", "c"])), Some(Kind::Directory));
}

#[test]
fn file_tree_insert_of_no_names_changes_nothing() {
    let mut tree = FileTree::new();
    tree.insert(&path(&["a"]));
    tree.insert(&path(&[]));
    assert!(!tree.insert_(&path(&["x"]), 1));
    assert!(tree.insert_(&path(&["x", "y"]), 1));
    assert_eq!(tree.kind(&path(&["a"])), Some(Kind::File));
    assert_eq!(tree.kind(&path(&["y"])), Some(Kind::File));
    assert_eq!(tree.kind(&path(&["x"])), None);
    assert_eq!(tree.entries.len(), 2);
}

#[test]
fn file_tree_from_paths_inserts_in_order() {
    let tree = FileTree::from_paths(&vec![
        path(&["project", "src"]),
        path(&["project", "src", "lib.rs"]),
        path(&["project", ".git"]),
        path(&["project", "README.md"]),
    ]);
    assert_eq!(tree.kind(&path(&["project"])), Some(Kind::Directory));
    assert_eq!(tree.kind(&path(&["project", "src"])), Some(Kind::Directory));
    assert_eq!(tree.kind(&path(&["project", "src", "lib.rs"])), Some(Kind::File));
    assert_eq!(tree.kind(&path(&["project", ".git"])), Some(Kind::File));
    assert_eq!(tree.kind(&path(&["project", "README.md"])), Some(Kind::File));
}

#[test]
fn only_directories_other_than_the_history_are_walked() {
    assert!(is_walked("src", true));
    assert!(!is_walked("src", false));
    assert!(!is_walked(".git", true));
    assert!(!is_walked(".git", false));
    assert!(is_walked(".github", true));
    assert!(is_walked("", true));
}
