//! A terminal typing trainer: passage splitting, line layout, the typing
//! state machine, frame rendering and the end-of-session summary.

pub mod text;
pub mod error;
pub mod typing;
pub mod app;
pub mod layout;
pub mod state;
pub mod event;
pub mod render;
pub mod config;
