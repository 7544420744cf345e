//! Keeps the directories that make up a shell's search path.
//!
//! A store holds the registered roots in order of precedence. Below each
//! root, directories are discovered down to a depth limit, and each is either
//! taken into the search path or left out for a stated reason. The library
//! decides on what it is shown of the disk, a `Snapshot` that the caller
//! takes beforehand; it never looks at the disk itself.

pub mod commands;
pub mod config;
pub mod plan;
pub mod scan;
pub mod shell;
pub mod utilities;

pub use commands::Commands;
pub use config::config::Config;
pub use config::entry::PathEntry;
pub use scan::walk::Snapshot;
