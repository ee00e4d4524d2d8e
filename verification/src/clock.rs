//! The wall clock.
//!
//! Every store and handler operation takes the moment of the request as an
//! argument and is verified for every value of it; this module is the one
//! place the clock is actually read.

use vstd::prelude::*;
use crate::time::{Date, Moment};

verus! {

/// Relies on std's `SystemTime` for the seconds since the epoch (an error,
/// not a value, when the clock stands before it) and on chrono's
/// `DateTime::from_timestamp` (none outside the calendar's range) with its
/// `Datelike` accessors: the month it reports is in 1..=12 and the day of
/// month in 1..=31. Nothing more is claimed - not the seconds' sign, nor
/// that the date is the calendar date of the seconds.
#[verifier::external_body]
fn current_datetime() -> (r: Option<Moment>)
    ensures
        r matches Some(m) ==> m.date.wf(),
{
    let elapsed =
        std::time::SystemTime::now().duration_since(std::time::UNIX_EPOCH).ok()?;
    let secs = elapsed.as_secs() as i64;
    let dt = chrono::DateTime::from_timestamp(secs, 0)?;
    Some(Moment {
        date: Date {
            year: chrono::Datelike::year(&dt),
            month: chrono::Datelike::month(&dt) as i32,
            day: chrono::Datelike::day(&dt) as i32,
        },
        secs,
    })
}

/// Reads the wall clock. A clock standing before the epoch, or outside the
/// calendar's range, yields no moment at all, so every moment handed out is
/// well formed.
pub fn read_clock() -> (r: Option<Moment>)
    ensures
        r matches Some(m) ==> m.wf(),
{
    match current_datetime() {
        Some(m) => if m.secs >= 0 {
            Some(m)
        } else {
            None
        },
        None => None,
    }
}

} // verus!
