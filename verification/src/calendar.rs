//! Proleptic Gregorian calendar arithmetic from Unix time, the clock read that
//! feeds it, and the whole-years-elapsed figure built on top.

use std::time::{Duration, SystemTime, SystemTimeError};
use vstd::prelude::*;

verus! {

/// `std::time::SystemTime`, carried through opaquely.
#[verifier::external_type_specification]
#[verifier::external_body]
pub struct ExSystemTime(SystemTime);

/// `std::time::SystemTimeError`, carried through opaquely.
#[verifier::external_type_specification]
#[verifier::external_body]
pub struct ExSystemTimeError(SystemTimeError);

/// Calls `SystemTime::now`. Nothing is claimed of the result: it is the
/// machine's clock.
#[verifier::external_body]
fn system_time_now() -> SystemTime {
    SystemTime::now()
}

/// Calls `SystemTime::duration_since(UNIX_EPOCH)` on `t`. Nothing is claimed
/// of the result: it depends on the clock reading `t`; the error arm is the
/// case of a time before the epoch.
#[verifier::external_body]
fn since_unix_epoch(t: &SystemTime) -> Result<Duration, SystemTimeError> {
    t.duration_since(std::time::UNIX_EPOCH)
}

/// Calls `Duration::as_secs`. Nothing is claimed of the result: a `Duration`
/// is opaque here, so its whole seconds cannot be stated.
#[verifier::external_body]
fn whole_secs(d: &Duration) -> u64 {
    d.as_secs()
}

/// Seconds in a day of Unix time.
pub const SECS_PER_DAY: u64 = 86_400;

/// The first year of Unix time.
pub const EPOCH_YEAR: u64 = 1970;

/// Gregorian leap year: divisible by 4, except centuries not divisible by 400.
pub open spec fn is_leap_year(y: int) -> bool {
    (y % 4 == 0 && y % 100 != 0) || y % 400 == 0
}

/// Days in year `y`.
pub open spec fn year_length(y: int) -> int {
    if is_leap_year(y) {
        366
    } else {
        365
    }
}

/// Number of leap years among `1..=y`, for `y >= 0`.
pub open spec fn leap_years_through(y: int) -> int {
    y / 4 - y / 100 + y / 400
}

/// Days from 1970-01-01 to January 1st of year `y` (for `y >= 1970`).
pub open spec fn days_before_year(y: int) -> int {
    365 * (y - 1970) + leap_years_through(y - 1) - leap_years_through(1969)
}

/// Days in month `m` (0-indexed) of a year, leap or not.
pub open spec fn month_length(m: int, leap: bool) -> int {
    if m == 1 {
        if leap {
            29
        } else {
            28
        }
    } else if m == 3 || m == 5 || m == 8 || m == 10 {
        30
    } else {
        31
    }
}

/// Days in a year before the first day of month `m` (0-indexed, `0..=12`).
pub open spec fn days_before_month(m: int, leap: bool) -> int
    decreases m,
{
    if m <= 0 {
        0
    } else {
        days_before_month(m - 1, leap) + month_length(m - 1, leap)
    }
}

/// Year `y` is the one whose days contain day `d` (days since 1970-01-01).
pub open spec fn year_holds_day(y: int, d: int) -> bool {
    &&& y >= 1970
    &&& days_before_year(y) <= d < days_before_year(y + 1)
}

/// Month `m` (0-indexed) of year `y` contains the `r`-th day of that year.
pub open spec fn month_holds_day(y: int, m: int, r: int) -> bool {
    &&& 0 <= m < 12
    &&& days_before_month(m, is_leap_year(y)) <= r < days_before_month(m + 1, is_leap_year(y))
}

/// The calendar year of day `d` after 1970-01-01 (`d >= 0`).
pub open spec fn year_of_day(d: int) -> int {
    choose|y: int| #[trigger] year_holds_day(y, d)
}

/// The 0-indexed month of day `d` after 1970-01-01 (`d >= 0`).
pub open spec fn month0_of_day(d: int) -> int {
    let y = year_of_day(d);
    choose|m: int| #[trigger] month_holds_day(y, m, d - days_before_year(y))
}

/// `(year, month0)` of the Unix time `secs`, the year truncated to 32 bits.
pub open spec fn year_month0_of_secs(secs: u64) -> (u32, u32) {
    let d = secs / SECS_PER_DAY;
    ((year_of_day(d as int) as u32), (month0_of_day(d as int) as u32))
}

/// Whole years from `(start_year, start_month0)` to `(year, month0)`,
/// counting a year once its anniversary month is reached, and 0 for a start
/// in the future.
pub open spec fn elapsed_years(year: u32, month0: u32, start_year: u32, start_month0: u32) -> u32 {
    let whole = if year >= start_year {
        (year - start_year) as u32
    } else {
        0u32
    };
    if month0 < start_month0 {
        if whole >= 1 {
            (whole - 1) as u32
        } else {
            0u32
        }
    } else {
        whole
    }
}

/// One more year adds that year's length.
pub proof fn lemma_days_before_next_year(y: int)
    requires
        y >= 1970,
    ensures
        days_before_year(y + 1) == days_before_year(y) + year_length(y),
{
    assert(y / 4 - (y - 1) / 4 == if y % 4 == 0 { 1int } else { 0int });
    assert(y / 100 - (y - 1) / 100 == if y % 100 == 0 { 1int } else { 0int });
    assert(y / 400 - (y - 1) / 400 == if y % 400 == 0 { 1int } else { 0int });
}

/// Later years start later: at least 365 days per year in between.
pub proof fn lemma_days_before_year_grows(a: int, b: int)
    requires
        1970 <= a <= b,
    ensures
        days_before_year(a) + 365 * (b - a) <= days_before_year(b),
    decreases b - a,
{
    if a < b {
        lemma_days_before_year_grows(a, b - 1);
        lemma_days_before_next_year(b - 1);
    }
}

/// Day `d` lies in at most one year.
pub proof fn lemma_year_unique(y1: int, y2: int, d: int)
    requires
        year_holds_day(y1, d),
        year_holds_day(y2, d),
    ensures
        y1 == y2,
{
    if y1 < y2 {
        lemma_days_before_year_grows(y1 + 1, y2);
    } else if y2 < y1 {
        lemma_days_before_year_grows(y2 + 1, y1);
    }
}

/// Later months start later in the year: at least 28 days per month between.
pub proof fn lemma_days_before_month_grows(a: int, b: int, leap: bool)
    requires
        0 <= a <= b,
    ensures
        days_before_month(a, leap) + 28 * (b - a) <= days_before_month(b, leap),
    decreases b - a,
{
    if a < b {
        lemma_days_before_month_grows(a, b - 1, leap);
    }
}

/// The twelve months make up the year.
pub proof fn lemma_months_fill_year(y: int)
    ensures
        days_before_month(12, is_leap_year(y)) == year_length(y),
{
    reveal_with_fuel(days_before_month, 13);
}

/// A day of a year lies in at most one month.
pub proof fn lemma_month_unique(y: int, m1: int, m2: int, r: int)
    requires
        month_holds_day(y, m1, r),
        month_holds_day(y, m2, r),
    ensures
        m1 == m2,
{
    let leap = is_leap_year(y);
    if m1 < m2 {
        lemma_days_before_month_grows(m1 + 1, m2, leap);
    } else if m2 < m1 {
        lemma_days_before_month_grows(m2 + 1, m1, leap);
    }
}

/// Whether `y` is a Gregorian leap year.
pub fn is_leap(y: u64) -> (r: bool)
    ensures
        r == is_leap_year(y as int),
{
    (y % 4 == 0 && y % 100 != 0) || y % 400 == 0
}

/// `(year, month0)` of the Unix time `secs` (month 0-indexed), found by
/// walking forward from 1970 year by year, then month by month. The year is
/// truncated to 32 bits.
pub fn year_month0_at(secs: u64) -> (r: (u32, u32))
    ensures
        r == year_month0_of_secs(secs),
{
    let mut days: u64 = secs / SECS_PER_DAY;
    let ghost total: int = days as int;
    let mut year: u64 = EPOCH_YEAR;
    loop
        invariant
            year >= 1970,
            total == secs / SECS_PER_DAY,
            total == days_before_year(year as int) + days,
            365 * (year - 1970) <= total - days,
        ensures
            year >= 1970,
            total == days_before_year(year as int) + days,
            days < year_length(year as int),
        decreases days,
    {
        let days_in_year: u64 = if is_leap(year) {
            366
        } else {
            365
        };
        if days < days_in_year {
            break;
        }
        days = days - days_in_year;
        proof {
            lemma_days_before_next_year(year as int);
        }
        year = year + 1;
    }
    proof {
        lemma_days_before_next_year(year as int);
        assert(year_holds_day(year as int, total));
        let y = year_of_day(total);
        lemma_year_unique(y, year as int, total);
    }
    let leap = is_leap(year);
    let feb: u64 = if leap {
        29
    } else {
        28
    };
    let month_lengths: [u64; 12] = [31, feb, 31, 30, 31, 30, 31, 31, 30, 31, 30, 31];
    let ghost rem: int = days as int;
    let mut month0: u32 = 0;
    let mut i: usize = 0;
    proof {
        lemma_months_fill_year(year as int);
    }
    while i < 12
        invariant
            i <= 12,
            month0 == i,
            days + days_before_month(i as int, leap) == rem,
            rem < days_before_month(12, leap),
            leap == is_leap_year(year as int),
            forall|k: int| 0 <= k < 12 ==> month_lengths@[k] == month_length(k, leap),
        ensures
            i < 12,
            month0 == i,
            days + days_before_month(i as int, leap) == rem,
            days < month_length(i as int, leap),
        decreases 12 - i,
    {
        let len = month_lengths[i];
        if days < len {
            break;
        }
        days = days - len;
        month0 = month0 + 1;
        i = i + 1;
    }
    proof {
        assert(month_holds_day(year as int, month0 as int, rem));
        let m = month0_of_day(total);
        lemma_month_unique(year as int, m, month0 as int, rem);
    }
    (year as u32, month0)
}

/// Whole years from `(start_year, start_month0)` to `(year, month0)`: a year
/// counts once its anniversary month is reached; a start in the future gives 0.
pub fn years_between(year: u32, month0: u32, start_year: u32, start_month0: u32) -> (r: u32)
    ensures
        r == elapsed_years(year, month0, start_year, start_month0),
{
    let mut elapsed = year.saturating_sub(start_year);
    if month0 < start_month0 {
        elapsed = elapsed.saturating_sub(1);
    }
    elapsed
}


/// Seconds since the Unix epoch on the machine's clock, 0 for a clock set
/// before the epoch.
fn unix_time_secs() -> u64 {
    let now = system_time_now();
    match since_unix_epoch(&now) {
        Ok(d) => whole_secs(&d),
        Err(_) => 0,
    }
}

/// Today's `(year, month0)` by the machine's clock, month 0-indexed: the
/// calendar position of some Unix time.
///
/// For native builds only: the machine's clock is not read this way in a
/// browser (wasm32-unknown-unknown), where the caller asks the page's clock
/// and passes the position to [`years_between`].
pub fn current_year_month0() -> (r: (u32, u32))
    ensures
        exists|secs: u64| r == year_month0_of_secs(secs),
{
    let secs = unix_time_secs();
    year_month0_at(secs)
}

/// This year by the machine's clock.
///
/// For native builds only: the machine's clock is not read this way in a
/// browser (wasm32-unknown-unknown), where the caller asks the page's clock
/// and passes the position to [`years_between`].
pub fn current_year() -> (r: u32)
    ensures
        exists|secs: u64| r == year_month0_of_secs(secs).0,
{
    current_year_month0().0
}

/// Whole years since `(start_year, start_month0)` by the machine's clock,
/// counting a year only once its anniversary month is reached; 0 for a start
/// in the future.
///
/// For native builds only: the machine's clock is not read this way in a
/// browser (wasm32-unknown-unknown), where the caller asks the page's clock
/// and passes the position to [`years_between`].
pub fn years_since(start_year: u32, start_month0: u32) -> (r: u32)
    ensures
        exists|secs: u64|
            r == elapsed_years(
                #[trigger] year_month0_of_secs(secs).0,
                year_month0_of_secs(secs).1,
                start_year,
                start_month0,
            ),
{
    let (year, month0) = current_year_month0();
    years_between(year, month0, start_year, start_month0)
}


/// `(y1, m1)` is no later than `(y2, m2)`.
pub open spec fn not_after(y1: int, m1: int, y2: int, m2: int) -> bool {
    y1 < y2 || (y1 == y2 && m1 <= m2)
}

proof fn lemma_year_found_from(y: int, d: int)
    requires
        y >= 1970,
        days_before_year(y) <= d,
    ensures
        year_holds_day(year_of_day(d), d),
    decreases d - days_before_year(y),
{
    lemma_days_before_next_year(y);
    if d < days_before_year(y + 1) {
        assert(year_holds_day(y, d));
    } else {
        lemma_year_found_from(y + 1, d);
    }
}

proof fn lemma_month_found_from(y: int, m: int, r: int)
    requires
        0 <= m < 12,
        days_before_month(m, is_leap_year(y)) <= r < year_length(y),
    ensures
        month_holds_day(y, month0_of_day_in(y, r), r),
    decreases 12 - m,
{
    lemma_months_fill_year(y);
    if r < days_before_month(m + 1, is_leap_year(y)) {
        assert(month_holds_day(y, m, r));
    } else {
        lemma_month_found_from(y, m + 1, r);
    }
}

/// The 0-indexed month of the `r`-th day of year `y`.
pub open spec fn month0_of_day_in(y: int, r: int) -> int {
    choose|m: int| #[trigger] month_holds_day(y, m, r)
}

/// Every day from 1970-01-01 on lies in a year from 1970 on, and in one of
/// its twelve months.
pub proof fn lemma_calendar_position(d: int)
    requires
        d >= 0,
    ensures
        year_of_day(d) >= 1970,
        year_holds_day(year_of_day(d), d),
        0 <= month0_of_day(d) < 12,
        month_holds_day(year_of_day(d), month0_of_day(d), d - days_before_year(year_of_day(d))),
{
    assert(days_before_year(1970) == 0);
    lemma_year_found_from(1970, d);
    let y = year_of_day(d);
    lemma_days_before_next_year(y);
    lemma_month_found_from(y, 0, d - days_before_year(y));
    assert(month0_of_day(d) == month0_of_day_in(y, d - days_before_year(y)));
}

/// As time goes on, the calendar position never goes back.
pub proof fn lemma_calendar_monotone(d1: int, d2: int)
    requires
        0 <= d1 <= d2,
    ensures
        not_after(year_of_day(d1), month0_of_day(d1), year_of_day(d2), month0_of_day(d2)),
{
    lemma_calendar_position(d1);
    lemma_calendar_position(d2);
    let y1 = year_of_day(d1);
    let y2 = year_of_day(d2);
    if y2 < y1 {
        lemma_days_before_year_grows(y2 + 1, y1);
    } else if y1 == y2 {
        let m1 = month0_of_day(d1);
        let m2 = month0_of_day(d2);
        if m2 < m1 {
            lemma_days_before_month_grows(m2 + 1, m1, is_leap_year(y1));
        }
    }
}

/// The elapsed-years figure counts whole years: once the start is reached,
/// it is the number `n` of anniversaries `(start_year + n, start_month0)`
/// reached so far, the next one still ahead; before the start it is 0.
pub proof fn lemma_elapsed_counts_anniversaries(
    year: u32,
    month0: u32,
    start_year: u32,
    start_month0: u32,
)
    ensures
        ({
            let n = elapsed_years(year, month0, start_year, start_month0);
            &&& not_after(start_year as int, start_month0 as int, year as int, month0 as int) ==> {
                &&& not_after(start_year + n, start_month0 as int, year as int, month0 as int)
                &&& !not_after(start_year + n + 1, start_month0 as int, year as int, month0 as int)
            }
            &&& !not_after(start_year as int, start_month0 as int, year as int, month0 as int) ==> n == 0
        }),
{
}


/// The months have their Gregorian lengths, January to December
/// 31, 28 (29 in a leap year), 31, 30, 31, 30, 31, 31, 30, 31, 30, 31, so
/// that month `m` starts 0, 31, 59, 90, 120, 151, 181, 212, 243, 273, 304 or
/// 334 days into the year (one day later from March on in a leap year), and
/// the year has 365 days (366 in a leap year).
pub proof fn lemma_months_are_gregorian(leap: bool)
    ensures
        month_length(0, leap) == 31,
        month_length(1, leap) == if leap {
            29int
        } else {
            28int
        },
        month_length(2, leap) == 31,
        month_length(3, leap) == 30,
        month_length(4, leap) == 31,
        month_length(5, leap) == 30,
        month_length(6, leap) == 31,
        month_length(7, leap) == 31,
        month_length(8, leap) == 30,
        month_length(9, leap) == 31,
        month_length(10, leap) == 30,
        month_length(11, leap) == 31,
        days_before_month(0, leap) == 0,
        days_before_month(1, leap) == 31,
        days_before_month(2, leap) == if leap {
            60int
        } else {
            59int
        },
        days_before_month(3, leap) == if leap {
            91int
        } else {
            90int
        },
        days_before_month(4, leap) == if leap {
            121int
        } else {
            120int
        },
        days_before_month(5, leap) == if leap {
            152int
        } else {
            151int
        },
        days_before_month(6, leap) == if leap {
            182int
        } else {
            181int
        },
        days_before_month(7, leap) == if leap {
            213int
        } else {
            212int
        },
        days_before_month(8, leap) == if leap {
            244int
        } else {
            243int
        },
        days_before_month(9, leap) == if leap {
            274int
        } else {
            273int
        },
        days_before_month(10, leap) == if leap {
            305int
        } else {
            304int
        },
        days_before_month(11, leap) == if leap {
            335int
        } else {
            334int
        },
        days_before_month(12, leap) == if leap {
            366int
        } else {
            365int
        },
{
    assert(days_before_month(0, leap) == 0);
    assert(days_before_month(1, leap) == 31);
    assert(days_before_month(2, leap) == days_before_month(1, leap) + month_length(1, leap));
    assert(days_before_month(3, leap) == days_before_month(2, leap) + 31);
    assert(days_before_month(4, leap) == days_before_month(3, leap) + 30);
    assert(days_before_month(5, leap) == days_before_month(4, leap) + 31);
    assert(days_before_month(6, leap) == days_before_month(5, leap) + 30);
    assert(days_before_month(7, leap) == days_before_month(6, leap) + 31);
    assert(days_before_month(8, leap) == days_before_month(7, leap) + 31);
    assert(days_before_month(9, leap) == days_before_month(8, leap) + 30);
    assert(days_before_month(10, leap) == days_before_month(9, leap) + 31);
    assert(days_before_month(11, leap) == days_before_month(10, leap) + 30);
    assert(days_before_month(12, leap) == days_before_month(11, leap) + 31);
}

/// The years have their Gregorian lengths: 366 days when divisible by 4
/// except for centuries not divisible by 400; 1970 starts day 0, 2000 starts
/// day 10957 and 2024 day 19723; and every 400 years hold 146097 days.
pub proof fn lemma_years_are_gregorian(y: int)
    requires
        y >= 1970,
    ensures
        year_length(1900) == 365,
        year_length(2000) == 366,
        year_length(2023) == 365,
        year_length(2024) == 366,
        year_length(2100) == 365,
        days_before_year(1970) == 0,
        days_before_year(2000) == 10957,
        days_before_year(2024) == 19723,
        days_before_year(y + 400) == days_before_year(y) + 146097,
        year_length(y) == 365 || year_length(y) == 366,
{
    assert((y + 399) / 4 == (y - 1) / 4 + 100);
    assert((y + 399) / 100 == (y - 1) / 100 + 4);
    assert((y + 399) / 400 == (y - 1) / 400 + 1);
}

/// The calendar position of a day is the month that holds it: a day `r`
/// days into year `y` (`y >= 1970`), between the first day of month `m` and
/// the first day of the next, is in year `y` and month `m`.
pub proof fn lemma_day_in_month(y: int, m: int, r: int)
    requires
        y >= 1970,
        month_holds_day(y, m, r),
    ensures
        year_of_day(days_before_year(y) + r) == y,
        month0_of_day(days_before_year(y) + r) == m,
{
    let d = days_before_year(y) + r;
    lemma_months_fill_year(y);
    lemma_days_before_month_grows(m + 1, 12, is_leap_year(y));
    lemma_days_before_month_grows(0, m, is_leap_year(y));
    lemma_days_before_next_year(y);
    assert(year_holds_day(y, d));
    lemma_calendar_position(d);
    lemma_year_unique(year_of_day(d), y, d);
    lemma_month_unique(y, month0_of_day(d), m, r);
}

} // verus!
