//! The circuit editor: components on stacked board layers, joined by typed
//! edges.
pub mod grid_manager;
pub mod handlers;
pub mod input;
pub mod kinds;
pub mod layer_manager;
pub mod msg;
pub mod place;
pub mod scene;
pub mod tool;
pub mod toolbar;
