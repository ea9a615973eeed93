use vstd::prelude::*;

verus! {

/// `time::precise_time_ns`: a counter of nanoseconds since some moment
/// that is not told.  Nothing is known of the number.
#[verifier::external_body]
pub(crate) fn clock_ns() -> u64 {
    time::precise_time_ns()
}

} // verus!
