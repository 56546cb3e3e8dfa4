//! Random numbers, from the `rand` crate.

use rand::Rng;
use vstd::prelude::*;

verus! {

/// A whole number drawn from `low..=high`.
///
/// Calls `Rng::gen_range` of the `rand` crate on its thread-local generator
/// with the inclusive range. The contract claims only what holds of every
/// draw: the value lies in the range. `gen_range` panics on an empty range,
/// which the precondition rules out. Nothing is claimed about how the
/// values are distributed, and nothing can be done here about a generator
/// that fails to seed itself from the operating system, on first use or
/// when it reseeds: the call then panics.
#[verifier::external_body]
pub(crate) fn random_between(low: i32, high: i32) -> (value: i32)
    requires
        low <= high,
    ensures
        low <= value <= high,
{
    rand::thread_rng().gen_range(low..=high)
}

} // verus!
