//! Discovery below a root: what a walk found, and the verdict on each path.

pub mod classify;
pub mod scanner;
pub mod walk;
