//! A calendar instant at minute resolution, with the Gregorian arithmetic
//! the scheduler needs: stepping forward one minute at a time, the day of
//! the week, and a numeric key for one calendar minute.

use vstd::prelude::*;

verus! {

/// A local calendar minute: seconds and anything finer are discarded.
#[derive(Clone, Copy, PartialEq, Eq, Structural, Debug)]
pub struct MinuteStamp {
    pub year: u32,
    pub month: u32,
    pub day: u32,
    pub hour: u32,
    pub minute: u32,
}

pub open spec fn is_leap_year(y: int) -> bool {
    y % 4 == 0 && (y % 100 != 0 || y % 400 == 0)
}

pub open spec fn spec_days_in_month(y: int, m: int) -> int {
    if m == 2 {
        if is_leap_year(y) {
            29
        } else {
            28
        }
    } else if m == 4 || m == 6 || m == 9 || m == 11 {
        30
    } else {
        31
    }
}

/// The stamps this library works with.
pub open spec fn stamp_valid(s: MinuteStamp) -> bool {
    &&& 1 <= s.year
    &&& 1 <= s.month <= 12
    &&& 1 <= s.day <= spec_days_in_month(s.year as int, s.month as int)
    &&& s.hour < 24
    &&& s.minute < 60
}

pub fn days_in_month(y: u32, m: u32) -> (r: u32)
    requires
        1 <= m <= 12,
    ensures
        r == spec_days_in_month(y as int, m as int),
{
    if m == 2 {
        if y % 4 == 0 && (y % 100 != 0 || y % 400 == 0) {
            29
        } else {
            28
        }
    } else if m == 4 || m == 6 || m == 9 || m == 11 {
        30
    } else {
        31
    }
}

impl MinuteStamp {
    /// Builds a stamp from plain calendar fields, rejecting anything outside
    /// the valid ranges.
    pub fn from_fields(year: u32, month: u32, day: u32, hour: u32, minute: u32) -> (r: Option<
        MinuteStamp,
    >)
        ensures
            match r {
                Some(s) => s == (MinuteStamp { year, month, day, hour, minute }) && stamp_valid(s),
                None => !stamp_valid(MinuteStamp { year, month, day, hour, minute }),
            },
    {
        if 1 <= year && 1 <= month && month <= 12 && 1 <= day && day <= days_in_month(year, month)
            && hour < 24 && minute < 60 {
            Some(MinuteStamp { year, month, day, hour, minute })
        } else {
            None
        }
    }
}

/// The calendar minute one step after `s`.
pub open spec fn spec_next_minute(s: MinuteStamp) -> MinuteStamp {
    if s.minute < 59 {
        MinuteStamp { minute: (s.minute + 1) as u32, ..s }
    } else if s.hour < 23 {
        MinuteStamp { hour: (s.hour + 1) as u32, minute: 0, ..s }
    } else if s.day < spec_days_in_month(s.year as int, s.month as int) {
        MinuteStamp { day: (s.day + 1) as u32, hour: 0, minute: 0, ..s }
    } else if s.month < 12 {
        MinuteStamp { month: (s.month + 1) as u32, day: 1, hour: 0, minute: 0, ..s }
    } else {
        MinuteStamp { year: (s.year + 1) as u32, month: 1, day: 1, hour: 0, minute: 0, ..s }
    }
}

pub fn next_minute(s: MinuteStamp) -> (r: MinuteStamp)
    requires
        stamp_valid(s),
        s.year < u32::MAX,
    ensures
        r == spec_next_minute(s),
        stamp_valid(r),
        r.year <= s.year + 1,
{
    if s.minute < 59 {
        MinuteStamp { minute: s.minute + 1, ..s }
    } else if s.hour < 23 {
        MinuteStamp { hour: s.hour + 1, minute: 0, ..s }
    } else if s.day < days_in_month(s.year, s.month) {
        MinuteStamp { day: s.day + 1, hour: 0, minute: 0, ..s }
    } else if s.month < 12 {
        MinuteStamp { month: s.month + 1, day: 1, hour: 0, minute: 0, ..s }
    } else {
        MinuteStamp { year: s.year + 1, month: 1, day: 1, hour: 0, minute: 0, ..s }
    }
}

/// Day of the week of a date, 0 = Sunday through 6 = Saturday, by the
/// classical month-offset congruence over the Gregorian calendar.
pub open spec fn spec_weekday(y: int, m: int, d: int) -> int {
    let yy = if m < 3 {
        y - 1
    } else {
        y
    };
    (yy + yy / 4 - yy / 100 + yy / 400 + spec_month_offset(m) + d) % 7
}

pub open spec fn spec_month_offset(m: int) -> int {
    if m == 1 {
        0
    } else if m == 2 {
        3
    } else if m == 3 {
        2
    } else if m == 4 {
        5
    } else if m == 5 {
        0
    } else if m == 6 {
        3
    } else if m == 7 {
        5
    } else if m == 8 {
        1
    } else if m == 9 {
        4
    } else if m == 10 {
        6
    } else if m == 11 {
        2
    } else {
        4
    }
}

fn month_offset(m: u32) -> (r: u32)
    requires
        1 <= m <= 12,
    ensures
        r == spec_month_offset(m as int),
{
    if m == 1 {
        0
    } else if m == 2 {
        3
    } else if m == 3 {
        2
    } else if m == 4 {
        5
    } else if m == 5 {
        0
    } else if m == 6 {
        3
    } else if m == 7 {
        5
    } else if m == 8 {
        1
    } else if m == 9 {
        4
    } else if m == 10 {
        6
    } else if m == 11 {
        2
    } else {
        4
    }
}

pub fn weekday(s: &MinuteStamp) -> (r: u32)
    requires
        stamp_valid(*s),
    ensures
        r == spec_weekday(s.year as int, s.month as int, s.day as int),
        r < 7,
{
    let yy: u64 = if s.month < 3 {
        (s.year - 1) as u64
    } else {
        s.year as u64
    };
    let t = month_offset(s.month) as u64;
    let d = s.day as u64;
    let r = (yy + yy / 4 - yy / 100 + yy / 400 + t + d) % 7;
    r as u32
}

/// Packs a calendar minute into one integer, year first, so that two valid
/// stamps collide only when they are the same minute.
pub open spec fn spec_stamp_key(s: MinuteStamp) -> int {
    (((s.year * 100 + s.month) * 100 + s.day) * 100 + s.hour) * 100 + s.minute
}

pub fn stamp_key(s: &MinuteStamp) -> (r: u64)
    requires
        stamp_valid(*s),
    ensures
        r == spec_stamp_key(*s),
{
    let y = s.year as u64;
    let mo = s.month as u64;
    let d = s.day as u64;
    let h = s.hour as u64;
    let mi = s.minute as u64;
    (((y * 100 + mo) * 100 + d) * 100 + h) * 100 + mi
}

/// Two valid stamps with the same key are the same calendar minute.
pub proof fn lemma_stamp_key_injective(a: MinuteStamp, b: MinuteStamp)
    requires
        stamp_valid(a),
        stamp_valid(b),
        spec_stamp_key(a) == spec_stamp_key(b),
    ensures
        a == b,
{
    let ka = spec_stamp_key(a);
    let kb = spec_stamp_key(b);
    assert(a.minute == ka % 100 && b.minute == kb % 100) by (nonlinear_arith)
        requires
            ka == (((a.year * 100 + a.month) * 100 + a.day) * 100 + a.hour) * 100 + a.minute,
            kb == (((b.year * 100 + b.month) * 100 + b.day) * 100 + b.hour) * 100 + b.minute,
            a.minute < 60,
            b.minute < 60,
    ;
    let ha = ka / 100;
    let hb = kb / 100;
    assert(ha == ((a.year * 100 + a.month) * 100 + a.day) * 100 + a.hour && hb == ((b.year * 100
        + b.month) * 100 + b.day) * 100 + b.hour) by (nonlinear_arith)
        requires
            ka == (((a.year * 100 + a.month) * 100 + a.day) * 100 + a.hour) * 100 + a.minute,
            kb == (((b.year * 100 + b.month) * 100 + b.day) * 100 + b.hour) * 100 + b.minute,
            a.minute < 60,
            b.minute < 60,
            ha == ka / 100,
            hb == kb / 100,
    ;
    assert(a.hour == ha % 100 && b.hour == hb % 100) by (nonlinear_arith)
        requires
            ha == ((a.year * 100 + a.month) * 100 + a.day) * 100 + a.hour,
            hb == ((b.year * 100 + b.month) * 100 + b.day) * 100 + b.hour,
            a.hour < 24,
            b.hour < 24,
    ;
    let da = ha / 100;
    let db = hb / 100;
    assert(da == (a.year * 100 + a.month) * 100 + a.day && db == (b.year * 100 + b.month) * 100
        + b.day) by (nonlinear_arith)
        requires
            ha == ((a.year * 100 + a.month) * 100 + a.day) * 100 + a.hour,
            hb == ((b.year * 100 + b.month) * 100 + b.day) * 100 + b.hour,
            a.hour < 24,
            b.hour < 24,
            da == ha / 100,
            db == hb / 100,
    ;
    assert(a.day == da % 100 && b.day == db % 100) by (nonlinear_arith)
        requires
            da == (a.year * 100 + a.month) * 100 + a.day,
            db == (b.year * 100 + b.month) * 100 + b.day,
            1 <= a.day <= 31,
            1 <= b.day <= 31,
    ;
    let ma = da / 100;
    let mb = db / 100;
    assert(ma == a.year * 100 + a.month && mb == b.year * 100 + b.month) by (nonlinear_arith)
        requires
            da == (a.year * 100 + a.month) * 100 + a.day,
            db == (b.year * 100 + b.month) * 100 + b.day,
            1 <= a.day <= 31,
            1 <= b.day <= 31,
            ma == da / 100,
            mb == db / 100,
    ;
    assert(a.month == ma % 100 && b.month == mb % 100 && a.year == ma / 100 && b.year == mb
        / 100) by (nonlinear_arith)
        requires
            ma == a.year * 100 + a.month,
            mb == b.year * 100 + b.month,
            1 <= a.month <= 12,
            1 <= b.month <= 12,
    ;
}

} // verus!
