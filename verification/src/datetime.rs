//! A local calendar time as plain fields, with the proleptic Gregorian
//! calendar written out as spec functions. Times are compared and shifted
//! through their total-seconds value: the number of seconds since the start
//! of year 0.

use vstd::prelude::*;

verus! {

/// A local calendar time, to one-second resolution. No time zone is attached:
/// every value in the library is in the one local zone the program runs in.
#[derive(Clone, Copy, PartialEq, Eq, Structural, Debug)]
pub struct DateTime {
    pub year: i64,
    pub month: u8,
    pub day: u8,
    pub hour: u8,
    pub minute: u8,
    pub second: u8,
}

/// Largest year a well-formed `DateTime` may carry; keeps total-seconds
/// arithmetic far from `i64` overflow.
pub const MAX_YEAR: i64 = 100_000;

pub open spec fn is_leap_year(y: int) -> bool {
    y % 4 == 0 && (y % 100 != 0 || y % 400 == 0)
}

pub open spec fn days_in_year_s(y: int) -> int {
    if is_leap_year(y) {
        366
    } else {
        365
    }
}

pub open spec fn days_in_month_s(y: int, m: int) -> int {
    if m == 1 {
        31
    } else if m == 2 {
        if is_leap_year(y) {
            29
        } else {
            28
        }
    } else if m == 3 {
        31
    } else if m == 4 {
        30
    } else if m == 5 {
        31
    } else if m == 6 {
        30
    } else if m == 7 {
        31
    } else if m == 8 {
        31
    } else if m == 9 {
        30
    } else if m == 10 {
        31
    } else if m == 11 {
        30
    } else {
        31
    }
}

/// Days in the months of year `y` strictly before month `m`.
pub open spec fn days_before_month(y: int, m: int) -> int
    decreases m,
{
    if m <= 1 {
        0
    } else {
        days_before_month(y, m - 1) + days_in_month_s(y, m - 1)
    }
}

/// Days in the years strictly before year `y` (counted from year 0).
pub open spec fn days_before_year(y: int) -> int
    decreases y,
{
    if y <= 0 {
        0
    } else {
        days_before_year(y - 1) + days_in_year_s(y - 1)
    }
}

/// Day count of `dt`'s date, with day 0 at the start of year 0.
pub open spec fn day_number_of(dt: DateTime) -> int {
    days_before_year(dt.year as int) + days_before_month(dt.year as int, dt.month as int) + (
    dt.day - 1)
}

/// Seconds from the start of year 0 to `dt`.
pub open spec fn total_seconds_of(dt: DateTime) -> int {
    day_number_of(dt) * 86400 + dt.hour * 3600 + dt.minute * 60 + dt.second
}

/// The fields name a real calendar time, in a year the library handles.
pub open spec fn wf(dt: DateTime) -> bool {
    &&& 0 <= dt.year <= MAX_YEAR
    &&& 1 <= dt.month <= 12
    &&& 1 <= dt.day <= days_in_month_s(dt.year as int, dt.month as int)
    &&& dt.hour <= 23
    &&& dt.minute <= 59
    &&& dt.second <= 59
}

/// Total seconds strictly below this bound for every well-formed time.
pub open spec fn total_seconds_limit() -> int {
    days_before_year(MAX_YEAR + 1) * 86400
}

pub fn is_leap_year_x(y: i64) -> (r: bool)
    requires
        0 <= y,
    ensures
        r == is_leap_year(y as int),
{
    y % 4 == 0 && (y % 100 != 0 || y % 400 == 0)
}

pub fn days_in_month_x(y: i64, m: u8) -> (r: u8)
    requires
        0 <= y,
    ensures
        r == days_in_month_s(y as int, m as int),
{
    if m == 2 {
        if is_leap_year_x(y) {
            29
        } else {
            28
        }
    } else if m == 4 || m == 6 || m == 9 || m == 11 {
        30
    } else if m == 1 || m == 3 {
        31
    } else {
        31
    }
}

pub fn days_in_year_x(y: i64) -> (r: u16)
    requires
        0 <= y,
    ensures
        r == days_in_year_s(y as int),
{
    if is_leap_year_x(y) {
        366
    } else {
        365
    }
}

proof fn lemma_dbm_unfold_year(y: int)
    ensures
        days_before_month(y, 13) == days_in_year_s(y),
{
    reveal_with_fuel(days_before_month, 14);
}

/// `days_before_month` grows by whole months.
proof fn lemma_dbm_monotone(y: int, m1: int, m2: int)
    requires
        m1 <= m2,
    ensures
        days_before_month(y, m1) <= days_before_month(y, m2),
    decreases m2 - m1,
{
    if m1 < m2 {
        lemma_dbm_monotone(y, m1, m2 - 1);
    }
}

/// A date's offset inside its year stays below the year's length.
proof fn lemma_month_offset_in_year(y: int, m: int)
    requires
        1 <= m <= 12,
    ensures
        0 <= days_before_month(y, m),
        days_before_month(y, m) + days_in_month_s(y, m) <= days_in_year_s(y),
{
    lemma_dbm_monotone(y, 1, m);
    lemma_dbm_monotone(y, m + 1, 13);
    lemma_dbm_unfold_year(y);
}

/// `days_before_year` is strictly increasing, by at least 365 a year.
proof fn lemma_dby_monotone(y1: int, y2: int)
    requires
        0 <= y1 <= y2,
    ensures
        days_before_year(y1) + 365 * (y2 - y1) <= days_before_year(y2),
    decreases y2 - y1,
{
    if y1 < y2 {
        lemma_dby_monotone(y1, y2 - 1);
    }
}

proof fn lemma_dby_upper(y: int)
    requires
        0 <= y,
    ensures
        days_before_year(y) <= 366 * y,
    decreases y,
{
    if y > 0 {
        lemma_dby_upper(y - 1);
    }
}

/// A well-formed time's day number sits inside its year's days.
proof fn lemma_day_number_in_year(dt: DateTime)
    requires
        wf(dt),
    ensures
        days_before_year(dt.year as int) <= day_number_of(dt),
        day_number_of(dt) < days_before_year(dt.year as int + 1),
{
    lemma_month_offset_in_year(dt.year as int, dt.month as int);
}

/// Bounds on the total seconds of a well-formed time.
pub proof fn lemma_total_seconds_bounds(dt: DateTime)
    requires
        wf(dt),
    ensures
        0 <= total_seconds_of(dt),
        total_seconds_of(dt) < total_seconds_limit(),
        total_seconds_limit() <= 0x1000_0000_0000,
{
    lemma_day_number_in_year(dt);
    lemma_dby_monotone(0, dt.year as int);
    lemma_dby_monotone(dt.year as int + 1, MAX_YEAR as int + 1);
    lemma_dby_upper(MAX_YEAR as int + 1);
    let dn = day_number_of(dt);
    assert(0 <= dn * 86400) by (nonlinear_arith)
        requires 0 <= dn,
    ;
    assert(dn * 86400 + 86400 <= days_before_year(MAX_YEAR as int + 1) * 86400) by (
    nonlinear_arith)
        requires dn + 1 <= days_before_year(MAX_YEAR as int + 1),
    ;
    assert(days_before_year(MAX_YEAR as int + 1) * 86400 <= 366 * (MAX_YEAR as int + 1) * 86400)
        by (nonlinear_arith)
        requires days_before_year(MAX_YEAR as int + 1) <= 366 * (MAX_YEAR as int + 1),
    ;
}

pub fn days_before_year_x(y: i64) -> (r: i64)
    requires
        0 <= y <= MAX_YEAR + 1,
    ensures
        r == days_before_year(y as int),
{
    let mut i: i64 = 0;
    let mut acc: i64 = 0;
    while i < y
        invariant
            0 <= i <= y <= MAX_YEAR + 1,
            acc == days_before_year(i as int),
        decreases y - i,
    {
        proof {
            lemma_dby_upper(i as int + 1);
        }
        acc = acc + days_in_year_x(i) as i64;
        i = i + 1;
    }
    acc
}

/// Seconds from the start of year 0 to `dt`, as a machine integer.
pub fn to_total_seconds(dt: &DateTime) -> (r: i64)
    requires
        wf(*dt),
    ensures
        r == total_seconds_of(*dt),
        0 <= r < total_seconds_limit(),
{
    proof {
        lemma_total_seconds_bounds(*dt);
        lemma_day_number_in_year(*dt);
        lemma_dby_upper(dt.year as int + 1);
        lemma_month_offset_in_year(dt.year as int, dt.month as int);
    }
    let mut m: u8 = 1;
    let mut days: i64 = days_before_year_x(dt.year);
    while m < dt.month
        invariant
            wf(*dt),
            1 <= m <= dt.month,
            days == days_before_year(dt.year as int) + days_before_month(
                dt.year as int,
                m as int,
            ),
            days_before_year(dt.year as int) <= 366 * 100_001,
            0 <= days_before_month(dt.year as int, m as int) <= 366,
        decreases dt.month - m,
    {
        proof {
            lemma_month_offset_in_year(dt.year as int, m as int);
        }
        days = days + days_in_month_x(dt.year, m) as i64;
        m = m + 1;
    }
    let dn: i64 = days + (dt.day as i64 - 1);
    proof {
        let dni = day_number_of(*dt);
        assert(dn * 86400 == dni * 86400);
        assert(dni * 86400 < days_before_year(MAX_YEAR as int + 1) * 86400) by (nonlinear_arith)
            requires dni < days_before_year(MAX_YEAR as int + 1),
        ;
        assert(0 <= dni * 86400) by (nonlinear_arith)
            requires 0 <= dni,
        ;
    }
    dn * 86400 + (dt.hour as i64) * 3600 + (dt.minute as i64) * 60 + dt.second as i64
}

/// Runtime check for `wf`.
pub fn wf_x(dt: &DateTime) -> (r: bool)
    ensures
        r == wf(*dt),
{
    0 <= dt.year && dt.year <= MAX_YEAR && 1 <= dt.month && dt.month <= 12 && 1 <= dt.day
        && dt.day <= days_in_month_x(dt.year, dt.month) && dt.hour <= 23 && dt.minute <= 59
        && dt.second <= 59
}

/// Two well-formed times with the same total seconds have the same fields.
pub proof fn lemma_total_seconds_injective(a: DateTime, b: DateTime)
    requires
        wf(a),
        wf(b),
        total_seconds_of(a) == total_seconds_of(b),
    ensures
        a == b,
{
    let sa = a.hour * 3600 + a.minute * 60 + a.second;
    let sb = b.hour * 3600 + b.minute * 60 + b.second;
    let da = day_number_of(a);
    let db = day_number_of(b);
    assert(da == db && sa == sb) by {
        if da < db {
            assert(db * 86400 >= (da + 1) * 86400) by (nonlinear_arith)
                requires da + 1 <= db,
            ;
        }
        if db < da {
            assert(da * 86400 >= (db + 1) * 86400) by (nonlinear_arith)
                requires db + 1 <= da,
            ;
        }
    }
    assert(a.hour == b.hour && a.minute == b.minute && a.second == b.second);
    lemma_day_number_in_year(a);
    lemma_day_number_in_year(b);
    if a.year < b.year {
        lemma_dby_monotone(a.year as int + 1, b.year as int);
        assert(false);
    }
    if b.year < a.year {
        lemma_dby_monotone(b.year as int + 1, a.year as int);
        assert(false);
    }
    let y = a.year as int;
    lemma_month_offset_in_year(y, a.month as int);
    lemma_month_offset_in_year(y, b.month as int);
    if a.month < b.month {
        lemma_dbm_monotone(y, a.month as int + 1, b.month as int);
        assert(false);
    }
    if b.month < a.month {
        lemma_dbm_monotone(y, b.month as int + 1, a.month as int);
        assert(false);
    }
}

/// The one well-formed time whose total seconds equal `ts`, where one exists.
pub open spec fn dt_from_total(ts: int) -> DateTime {
    choose|dt: DateTime| wf(dt) && total_seconds_of(dt) == ts
}

/// The well-formed time at `ts` seconds from the start of year 0.
pub fn from_total_seconds(ts: i64) -> (r: DateTime)
    requires
        0 <= ts < total_seconds_limit(),
    ensures
        wf(r),
        total_seconds_of(r) == ts as int,
        r == dt_from_total(ts as int),
{
    let mut y: i64 = 0;
    let mut secs: i64 = ts;
    while secs >= (days_in_year_x(y) as i64) * 86400
        invariant
            0 <= y <= MAX_YEAR,
            0 <= secs,
            days_before_year(y as int) * 86400 + secs == ts,
            ts < total_seconds_limit(),
        decreases secs,
    {
        proof {
            if y + 1 > MAX_YEAR {
                lemma_dby_monotone(MAX_YEAR as int + 1, y as int + 1);
                assert((days_before_year(y as int) + days_in_year_s(y as int)) * 86400 <= ts)
                    by (nonlinear_arith)
                    requires
                        days_before_year(y as int + 1) <= days_before_year(y as int)
                            + days_in_year_s(y as int),
                        days_before_year(MAX_YEAR as int + 1) <= days_before_year(y as int + 1),
                        days_before_year(MAX_YEAR as int + 1) * 86400 > ts,
                        days_before_year(y as int) * 86400 + days_in_year_s(y as int) * 86400
                            <= ts,
                ;
                assert(false);
            }
        }
        secs = secs - (days_in_year_x(y) as i64) * 86400;
        y = y + 1;
    }
    let mut mo: u8 = 1;
    while secs >= (days_in_month_x(y, mo) as i64) * 86400
        invariant
            0 <= y <= MAX_YEAR,
            1 <= mo <= 12,
            0 <= secs,
            days_before_year(y as int) * 86400 + days_before_month(y as int, mo as int) * 86400
                + secs == ts,
            days_before_month(y as int, mo as int) * 86400 + secs < days_in_year_s(y as int)
                * 86400,
        decreases 12 - mo,
    {
        proof {
            lemma_month_offset_in_year(y as int, mo as int);
            if mo == 12 {
                lemma_dbm_unfold_year(y as int);
                assert(false);
            }
        }
        secs = secs - (days_in_month_x(y, mo) as i64) * 86400;
        mo = mo + 1;
    }
    proof {
        lemma_month_offset_in_year(y as int, mo as int);
    }
    let s2: u64 = secs as u64;
    let day0: u64 = s2 / 86400;
    let rem: u64 = s2 % 86400;
    let hour: u64 = rem / 3600;
    let rem2: u64 = rem % 3600;
    let minute: u64 = rem2 / 60;
    let second: u64 = rem2 % 60;
    proof {
        vstd::arithmetic::div_mod::lemma_fundamental_div_mod(s2 as int, 86400);
        vstd::arithmetic::div_mod::lemma_fundamental_div_mod(rem as int, 3600);
        vstd::arithmetic::div_mod::lemma_fundamental_div_mod(rem2 as int, 60);
        let dim = days_in_month_s(y as int, mo as int);
        assert(day0 < dim) by (nonlinear_arith)
            requires
                s2 == 86400 * (day0 as int) + rem,
                0 <= rem,
                s2 < dim * 86400,
        ;
    }
    let r = DateTime {
        year: y,
        month: mo,
        day: (day0 + 1) as u8,
        hour: hour as u8,
        minute: minute as u8,
        second: second as u8,
    };
    proof {
        assert(total_seconds_of(r) == ts as int);
        let w = dt_from_total(ts as int);
        assert(wf(r) && total_seconds_of(r) == ts as int);
        lemma_total_seconds_injective(r, w);
    }
    r
}

/// Exact machine bound below which `from_total_seconds` accepts a value.
pub fn total_seconds_limit_x() -> (r: i64)
    ensures
        r == total_seconds_limit(),
{
    proof {
        lemma_dby_upper(MAX_YEAR as int + 1);
        lemma_dby_monotone(0, MAX_YEAR as int + 1);
        assert(days_before_year(MAX_YEAR as int + 1) * 86400 <= 366 * 100_001 * 86400) by (
        nonlinear_arith)
            requires days_before_year(MAX_YEAR as int + 1) <= 366 * 100_001,
        ;
        assert(0 <= days_before_year(MAX_YEAR as int + 1) * 86400) by (nonlinear_arith)
            requires 0 <= days_before_year(MAX_YEAR as int + 1),
        ;
    }
    days_before_year_x(MAX_YEAR + 1) * 86400
}

/// `dt` shifted forward by `m` minutes (backward when `m` is negative);
/// `None` exactly when the result would leave the representable years.
pub fn checked_add_minutes(dt: &DateTime, m: i64) -> (r: Option<DateTime>)
    requires
        wf(*dt),
    ensures
        match r {
            Some(e) => {
                &&& 0 <= total_seconds_of(*dt) + m * 60 < total_seconds_limit()
                &&& wf(e)
                &&& total_seconds_of(e) == total_seconds_of(*dt) + m * 60
                &&& e == dt_from_total(total_seconds_of(*dt) + m * 60)
            },
            None => !(0 <= total_seconds_of(*dt) + m * 60 < total_seconds_limit()),
        },
{
    let ts = to_total_seconds(dt);
    proof {
        lemma_total_seconds_bounds(*dt);
    }
    match m.checked_mul(60) {
        None => {
            proof {
                assert(m * 60 > i64::MAX || m * 60 < i64::MIN) by (nonlinear_arith)
                    requires !(i64::MIN <= m * 60 <= i64::MAX),
                ;
            }
            None
        },
        Some(delta) => match ts.checked_add(delta) {
            None => None,
            Some(sum) => {
                if sum < 0 {
                    None
                } else if sum >= total_seconds_limit_x() {
                    None
                } else {
                    Some(from_total_seconds(sum))
                }
            },
        },
    }
}

/// Whole minutes from `b` to `a`, rounded toward zero.
pub open spec fn trunc_div_minutes(d: int) -> int {
    if d >= 0 {
        d / 60
    } else {
        -((-d) / 60)
    }
}

pub open spec fn minutes_between(a: DateTime, b: DateTime) -> int {
    trunc_div_minutes(total_seconds_of(a) - total_seconds_of(b))
}

/// Whole minutes from `b` to `a`, rounded toward zero.
pub fn diff_minutes(a: &DateTime, b: &DateTime) -> (r: i64)
    requires
        wf(*a),
        wf(*b),
    ensures
        r == minutes_between(*a, *b),
{
    proof {
        lemma_total_seconds_bounds(*a);
        lemma_total_seconds_bounds(*b);
    }
    let d = to_total_seconds(a) - to_total_seconds(b);
    if d >= 0 {
        let q = (d as u64) / 60;
        proof {
            vstd::arithmetic::div_mod::lemma_fundamental_div_mod(d as int, 60);
            assert(q <= d) by (nonlinear_arith)
                requires
                    d == 60 * (q as int) + (d as int) % 60,
                    0 <= (d as int) % 60,
                    0 <= q,
            ;
        }
        q as i64
    } else {
        let nd = -d;
        let q = (nd as u64) / 60;
        proof {
            vstd::arithmetic::div_mod::lemma_fundamental_div_mod(nd as int, 60);
            assert(q <= nd) by (nonlinear_arith)
                requires
                    nd == 60 * (q as int) + (nd as int) % 60,
                    0 <= (nd as int) % 60,
                    0 <= q,
            ;
        }
        -(q as i64)
    }
}

} // verus!

