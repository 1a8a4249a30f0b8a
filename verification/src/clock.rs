//! Reading the wall clock.
//!
//! The clock is the one outside capability the core itself consumes: every
//! tick needs the current instant for frame names and retention ages. The
//! raw reading is turned into a validated [`Timestamp`] by
//! [`timestamp_from_fields`], whose contract fixes exactly which readings
//! yield an instant; everything downstream works on that plain value.

use vstd::prelude::*;
use chrono::Datelike;
use chrono::Timelike;
use crate::timestamp::Timestamp;
use crate::timestamp::days_in_month;
use crate::timestamp::month_length;

verus! {

/// Relies on `chrono::Local::now` and its `Datelike`/`Timelike` accessors:
/// per their documentation the month is 1 to 12, the day 1 to 31, the hour
/// below 24, the minute and the second below 60. The year is whatever the
/// platform clock says, and the reading as a whole depends on it too, so
/// nothing more is promised. `chrono::Local::now` panics when the platform
/// clock reads before the Unix epoch — an ambient condition no `requires`
/// on a parameterless reading can exclude.
#[verifier::external_body]
fn local_clock_fields() -> (r: (i32, u32, u32, u32, u32, u32))
    ensures
        1 <= r.1 <= 12,
        1 <= r.2 <= 31,
        r.3 < 24,
        r.4 < 60,
        r.5 < 60,
{
    let t = chrono::Local::now();
    (t.year(), t.month(), t.day(), t.hour(), t.minute(), t.second())
}

/// Validates one clock reading, field by field, into an instant. The
/// parameter ranges are the ones the clock's accessors guarantee; the
/// reading is an instant exactly when its year fits the four digits the
/// naming convention carries and its day exists in its month.
pub fn timestamp_from_fields(y: i32, mo: u32, d: u32, h: u32, mi: u32, s: u32) -> (r: Option<
    Timestamp,
>)
    requires
        1 <= mo <= 12,
        1 <= d <= 31,
        h < 24,
        mi < 60,
        s < 60,
    ensures
        r is Some <==> (0 <= y <= 9999 && d <= days_in_month(y as int, mo as int)),
        r matches Some(ts) ==> ts == (Timestamp {
            year: y as u16,
            month: mo as u8,
            day: d as u8,
            hour: h as u8,
            minute: mi as u8,
            second: s as u8,
        }),
        r matches Some(ts) ==> ts.wf(),
{
    if y < 0 || y > 9999 {
        return None;
    }
    let ts = Timestamp {
        year: y as u16,
        month: mo as u8,
        day: d as u8,
        hour: h as u8,
        minute: mi as u8,
        second: s as u8,
    };
    if ts.day <= month_length(ts.year, ts.month) {
        Some(ts)
    } else {
        None
    }
}

/// Reads the wall clock as a validated instant: one trusted reading,
/// validated by [`timestamp_from_fields`]. `None` when the platform clock
/// is outside what the naming convention can carry.
pub fn now_timestamp() -> (r: Option<Timestamp>)
    ensures
        r matches Some(ts) ==> ts.wf(),
{
    let (y, mo, d, h, mi, s) = local_clock_fields();
    timestamp_from_fields(y, mo, d, h, mi, s)
}

} // verus!
