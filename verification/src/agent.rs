//! The scene agent: reading, searching, changing and watching a scene.
pub mod demo;
pub mod descriptor;
pub mod edit;
pub mod handle;
pub mod mutate;
pub mod navigate;
pub mod path;
pub mod pattern;
pub mod query;
pub mod scan;
pub mod scene;
pub mod sdk;
pub mod subtree;
pub mod tools;
pub mod walk;
pub mod watch;
pub mod world;
