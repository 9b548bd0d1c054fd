//! The calendar clock.

use vstd::prelude::*;

verus! {

/// Reads the calendar year of the current moment in UTC. Wraps
/// `chrono::Utc::now` and `chrono::Datelike::year`. The result follows the
/// system clock. `Utc::now` measures the system time since the Unix
/// epoch and does not return for a clock set before it, nor for one set
/// beyond the dates that chrono can hold, so the year is 1970 or later;
/// nothing else is claimed.
#[verifier::external_body]
pub(crate) fn current_year() -> (year: i32)
    ensures
        year >= 1970,
{
    chrono::Datelike::year(&chrono::Utc::now())
}

} // verus!
