//! The design editor: frames on a canvas, joined by typed relations.
pub mod create;
pub mod drag;
pub mod handlers;
pub mod input;
pub mod msg;
pub mod scene;
pub mod tool;
pub mod toolbar;
pub mod weave;
