//! Strings, patterns and the clock.

pub mod clock;
pub mod pattern_match;
pub mod text;
