//! An entity-component-system runtime with a staged scheduler, together with
//! the plain-data models of the editor and of the windowing layer that sit
//! around it.

pub mod audio;
pub mod ecs;
pub mod editor;
pub mod window;
