//! When the day changes.

use chrono::Timelike;
use vstd::prelude::*;

verus! {

/// `chrono::Local::now` and `chrono::Timelike::num_seconds_from_midnight`: how many
/// seconds of the local day have passed, from 0 to 86399. Which it is depends on the
/// time, the time zone and the machine, so no more is said of it. `now` does not
/// return on a machine whose clock stands before 1970.
#[verifier::external_body]
fn seconds_since_midnight() -> (secs: u32)
    ensures
        secs <= 86399,
{
    chrono::Local::now().num_seconds_from_midnight()
}

/// For how many seconds to wait for the next day, so many seconds after midnight: two
/// more than are left of the day.
pub fn until_next_day(passed: u32) -> (secs: u32)
    ensures
        secs == (if passed <= 86400 {
            86400 - passed + 2
        } else {
            2
        }),
{
    let left: u32 = if passed <= 86400 {
        86400 - passed
    } else {
        0
    };
    left + 2
}

/// For how many seconds to wait until shortly after the next local midnight.
pub fn midnight_delay() -> (secs: u32)
    ensures
        3 <= secs <= 86402,
{
    until_next_day(seconds_since_midnight())
}

} // verus!
