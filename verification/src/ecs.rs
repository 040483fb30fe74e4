//! The entity-component-system runtime: the component store, the shared
//! resources, systems with their declared access, and the staged scheduler.

pub mod typemap;
pub mod entity;
pub mod state;
pub mod world;
pub mod resources;
pub mod access;
pub mod command;
pub mod system;
pub mod model;
pub mod stage;
pub mod schedule;
pub mod engine;
pub mod app;
pub mod laws;
pub mod independence;
pub mod order;
pub mod physic;
