//! The wall clock, which stamps every verdict.

use vstd::prelude::*;
use std::time::SystemTime;

verus! {

/// `std::time::SystemTime`, carried through as an opaque value: nothing in
/// this library reads a timestamp.
#[verifier::external_type_specification]
#[verifier::external_body]
pub struct ExSystemTime(SystemTime);

/// Calls `SystemTime::now`. Nothing is promised of the reading.
#[verifier::external_body]
pub(crate) fn now() -> SystemTime {
    SystemTime::now()
}

} // verus!
