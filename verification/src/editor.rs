//! State of the editor shell: its message queue, panels, project and logs.

pub mod app;
pub mod filetree;
pub mod logger;
pub mod message;
pub mod project;
pub mod trace;
pub mod ui;
