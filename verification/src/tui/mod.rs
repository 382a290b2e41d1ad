//! The state machine behind the terminal interface.

pub mod app;
pub mod keys;
pub mod tree_ops;
