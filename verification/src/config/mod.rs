//! The store and what it holds.

pub mod config;
pub mod entry;
pub mod exclude;
pub mod path_map;
