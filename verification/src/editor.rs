//! What the two editors share: messages, tools, the projection of replicated
//! topology into events, and the keyboard.
pub mod connect;
pub mod keys;
pub mod msg;
pub mod project;
pub mod select;
pub mod status;
pub mod toolbar;
pub mod topology;
