//! The clock that stamps requests and dispatch passes.

use vstd::prelude::*;

verus! {

/// `time::precise_time_ns`: the reading of a steady clock, in nanoseconds
/// since a start that is not specified. Nothing is claimed of the reading.
#[verifier::external_body]
fn precise_time_ns() -> u64 {
    time::precise_time_ns()
}

/// Whether `reading` is a reading that the clock gave.
pub closed spec fn read_from_clock(reading: u64) -> bool {
    call_ensures(precise_time_ns, (), reading)
}

/// Reads the clock.
pub(crate) fn read() -> (reading: u64)
    ensures
        read_from_clock(reading),
{
    precise_time_ns()
}

} // verus!
