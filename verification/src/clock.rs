//! The two places the library asks the machine for the time, each behind a
//! trusted wrapper; everything that reasons about instants works on the
//! plain values these hand back.

use vstd::prelude::*;
use crate::timepoint::{stamp_valid, MinuteStamp};

verus! {

/// Relies on `std::time::SystemTime::now` and `duration_since`: the
/// milliseconds since the Unix epoch, or zero when the clock reads before
/// it. The value depends on the wall clock, so nothing more is promised.
#[verifier::external_body]
pub fn timestamp_ms() -> u128 {
    std::time::SystemTime::now().duration_since(std::time::UNIX_EPOCH).map(
        |duration| duration.as_millis(),
    ).unwrap_or(0)
}

/// Relies on `chrono::Local::now` and the `Datelike`/`Timelike` accessors:
/// the documented ranges are month 1 to 12, day 1 to 31, hour 0 to 23 and
/// minute 0 to 59. The values depend on the wall clock and the machine's
/// time zone, so nothing more is promised of them.
#[verifier::external_body]
fn local_now_fields() -> (r: (i32, u32, u32, u32, u32))
    ensures
        1 <= r.1 <= 12,
        1 <= r.2 <= 31,
        r.3 < 24,
        r.4 < 60,
{
    let now = chrono::Local::now();
    (
        chrono::Datelike::year(&now),
        chrono::Datelike::month(&now),
        chrono::Datelike::day(&now),
        chrono::Timelike::hour(&now),
        chrono::Timelike::minute(&now),
    )
}

/// The current local calendar minute, as a validated stamp; `None` only if
/// the clock hands back a date this library's calendar refuses.
pub fn current_minute() -> (r: Option<MinuteStamp>)
    ensures
        match r {
            Some(s) => stamp_valid(s),
            None => true,
        },
{
    let (year, month, day, hour, minute) = local_now_fields();
    if year < 1 {
        return None;
    }
    MinuteStamp::from_fields(year as u32, month, day, hour, minute)
}

} // verus!
