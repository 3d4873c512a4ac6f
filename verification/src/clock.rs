//! The one place the library asks the machine anything: the current local
//! time, read through chrono.

use crate::datetime::{wf, wf_x, DateTime};
use chrono::{Datelike, Timelike};
use vstd::prelude::*;

verus! {

/// Relies on chrono::Local::now and the Datelike/Timelike accessors of the
/// chrono::NaiveDateTime it yields: month() is documented to range over
/// 1..=12, day() over 1..=31, hour() over 0..=23, minute() and second() over
/// 0..=59. Nothing else is claimed of the clock's reading. chrono aborts the
/// process when the system clock reads before the Unix epoch or beyond its
/// representable years; that is inherent to reading a clock, since no
/// precondition can exclude a state of the environment.
#[verifier::external_body]
fn now_fields() -> (r: (i64, u8, u8, u8, u8, u8))
    ensures
        1 <= r.1 <= 12,
        1 <= r.2 <= 31,
        r.3 <= 23,
        r.4 <= 59,
        r.5 <= 59,
{
    let n = chrono::Local::now().naive_local();
    (
        n.year() as i64,
        n.month() as u8,
        n.day() as u8,
        n.hour() as u8,
        n.minute() as u8,
        n.second() as u8,
    )
}

/// Pack a clock reading into a calendar time: exactly the `DateTime` the six
/// fields spell when they name a real calendar time in a year the library
/// handles, and nothing otherwise.
pub fn time_from_fields(year: i64, month: u8, day: u8, hour: u8, minute: u8, second: u8) -> (r:
    Option<DateTime>)
    ensures
        r == (if wf((DateTime { year, month, day, hour, minute, second })) {
            Some((DateTime { year, month, day, hour, minute, second }))
        } else {
            None::<DateTime>
        }),
{
    let dt = DateTime { year, month, day, hour, minute, second };
    if wf_x(&dt) {
        Some(dt)
    } else {
        None
    }
}

/// The current local time: the clock's reading fed through
/// `time_from_fields`, so `None` when it names no calendar time the library
/// handles (a year out of range). Of the clock itself nothing can be
/// promised, so no more is stated here; the packing decision is pinned by
/// `time_from_fields`'s own contract.
pub fn current_time() -> (r: Option<DateTime>)
    ensures
        match r {
            Some(dt) => wf(dt),
            None => true,
        },
{
    let (year, month, day, hour, minute, second) = now_fields();
    time_from_fields(year, month, day, hour, minute, second)
}

} // verus!
