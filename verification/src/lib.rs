//! Core logic of a local workspace synchronization layer: path validation,
//! crash-safe atomic persistence, ordered directory-tree construction, and a
//! debounced filesystem-watch state machine.

pub mod calendar;
pub mod error;
pub mod json;
pub mod path_guard;
pub mod persist;
pub mod text;
pub mod tree;
pub mod watcher;
pub mod workspace;
pub mod workspace_ops;
