//! Kyoso: an agent's view of a replicated scene, and the logic of two
//! collaborative editors.
//!
//! - [`agent`] reads, watches and changes a scene graph through stable node
//!   references.
//! - [`client`] is the design editor, [`circuit`] the circuit editor. Both are
//!   built from [`editor`], and meet the outside through [`bridge`] and each
//!   other through [`presence`].
//!
//! Nothing here draws or listens: functions take what was observed and return
//! what is to be done.
pub mod agent;
pub mod bridge;
pub mod channel;
pub mod circuit;
pub mod client;
pub mod editor;
pub mod geometry;
pub mod presence;
pub mod seqs;
pub mod table;
pub mod text;
pub mod wire;
