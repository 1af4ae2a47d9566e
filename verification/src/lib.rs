//! Decision logic of a file-watching process supervisor: configuration
//! merging, path handling, event filtering and the restart loop's steps.

pub mod changes;
pub mod config;
pub mod paths;
pub mod process;
pub mod supervisor;
pub mod text;
pub mod watcher;
