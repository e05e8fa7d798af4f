//! The system clock, which stamps each access.

use vstd::prelude::*;

verus! {

/// std's wall-clock time, carried through as an opaque value.
#[verifier::external_type_specification]
#[verifier::external_body]
pub struct ExSystemTime(std::time::SystemTime);

/// Relies on std::time::SystemTime::now: it reads the system clock and
/// returns; nothing is promised of the value.
pub assume_specification[ std::time::SystemTime::now ]() -> std::time::SystemTime;

} // verus!
