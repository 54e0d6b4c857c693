//! What the daemon observes: which filesystems to watch, and which files are opened by whom.

pub mod buffer;
pub mod decimal;
pub mod event;
pub mod marks;
pub mod mounts;
pub mod opening;
pub mod outcomes;
pub mod reader;
pub mod tables;
