//! The one place the library touches the outside world: reading the clock.

use vstd::prelude::*;

verus! {

/// Relies on time::precise_time_ns: the current reading, in nanoseconds, of a
/// high-resolution performance counter with an unspecified epoch. Nothing is
/// assumed of the value; callers must cope with any reading, including one
/// below an earlier one.
#[verifier::external_body]
pub(crate) fn now_ns() -> u64 {
    time::precise_time_ns()
}

} // verus!
