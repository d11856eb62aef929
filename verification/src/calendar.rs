//! The proleptic Gregorian calendar: the date a count of days from 1970-01-01 names, and its
//! `YYYY-MM-DD` text.
use vstd::prelude::*;
use vstd::string::*;
use crate::text::{decimal, padded_decimal, zero_padded};

verus! {

/// The proleptic Gregorian date `days` after 1970-01-01 (negative: before it), by the
/// era-based method: (year, month, day).
pub open spec fn civil_of(days: int) -> (int, int, int) {
    let z = days + 719468;
    let era = z / 146097;
    let doe = z - era * 146097;
    let yoe = (doe - doe / 1460 + doe / 36524 - doe / 146096) / 365;
    let y = yoe + era * 400;
    let doy = doe - (365 * yoe + yoe / 4 - yoe / 100);
    let mp = (5 * doy + 2) / 153;
    let d = doy - (153 * mp + 2) / 5 + 1;
    let m = if mp < 10 { mp + 3 } else { mp - 9 };
    (if m <= 2 { y + 1 } else { y }, m, d)
}

/// Within one 400-year era, the year of the era, the day of that year (from March 1) and the
/// month index stay in range.
#[verifier::spinoff_prover]
#[verifier::rlimit(50)]
pub proof fn lemma_civil_ranges(doe: int)
    requires
        0 <= doe <= 146096,
    ensures
        0 <= (doe - doe / 1460 + doe / 36524 - doe / 146096) / 365 <= 399,
        0 <= doe - (365 * ((doe - doe / 1460 + doe / 36524 - doe / 146096) / 365) + ((doe - doe / 1460 + doe / 36524 - doe / 146096) / 365) / 4 - ((doe - doe / 1460 + doe / 36524 - doe / 146096) / 365) / 100) <= 365,
{
    let yoe = (doe - doe / 1460 + doe / 36524 - doe / 146096) / 365;
    assert(0 <= yoe <= 399);
    let doy = doe - (365 * yoe + yoe / 4 - yoe / 100);
    assert(0 <= doy <= 365);
}

/// From a day of a March-based year, the month index is 0..=11 and the day 1..=31.
pub proof fn lemma_month_ranges(doy: int)
    requires
        0 <= doy <= 365,
    ensures
        0 <= (5 * doy + 2) / 153 <= 11,
        1 <= doy - (153 * ((5 * doy + 2) / 153) + 2) / 5 + 1 <= 31,
{
}

/// The date `days` after 1970-01-01: `civil_of(days)`, with the month in 1..=12 and the day
/// within that month.
pub fn civil_from_days(days_since_unix_epoch: i64) -> (r: (i64, u32, u32))
    requires
        days_since_unix_epoch <= i64::MAX - 719468,
    ensures
        r.0 == civil_of(days_since_unix_epoch as int).0,
        r.1 == civil_of(days_since_unix_epoch as int).1,
        r.2 == civil_of(days_since_unix_epoch as int).2,
        1 <= r.1 <= 12,
        1 <= r.2 <= month_days(r.0 as int, r.1 as int),
{
    proof {
        lemma_civil_valid(days_since_unix_epoch as int);
    }
    let z: i64 = days_since_unix_epoch + 719_468;
    // Floor division by the era length; for negative `z` this is `(z - 146096) / 146097`
    // rounded toward zero.
    let era: i64 = if z >= 0 {
        z / 146_097
    } else {
        let t: i64 = 146_096 - z;
        -(t / 146_097)
    };
    assert(era == (z as int) / 146097);
    let doe: i64 = z - era * 146_097;
    assert(0 <= doe <= 146096);
    proof {
        lemma_civil_ranges(doe as int);
    }
    let yoe: i64 = (doe - doe / 1_460 + doe / 36_524 - doe / 146_096) / 365;
    let y: i64 = yoe + era * 400;
    let doy: i64 = doe - (365 * yoe + yoe / 4 - yoe / 100);
    proof {
        lemma_month_ranges(doy as int);
    }
    let mp: i64 = (5 * doy + 2) / 153;
    let day: i64 = doy - (153 * mp + 2) / 5 + 1;
    let month: i64 = mp + if mp < 10 { 3 } else { -9 };
    let year: i64 = y + if month <= 2 { 1 } else { 0 };
    (year, month as u32, day as u32)
}

/// The `YYYY-MM-DD` form of a date, each part zero-padded.
pub open spec fn date_text(year: nat, month: nat, day: nat) -> Seq<char> {
    zero_padded(decimal(year), 4) + "-"@ + zero_padded(decimal(month), 2) + "-"@ + zero_padded(decimal(day), 2)
}

/// The UTC date `days` days after 1970-01-01, as `YYYY-MM-DD`.
pub fn utc_date_from_days(days: u64) -> (r: String)
    requires
        days <= i64::MAX - 719468,
    ensures
        civil_of(days as int).0 >= 0,
        r@ == date_text(civil_of(days as int).0 as nat, civil_of(days as int).1 as nat, civil_of(days as int).2 as nat),
{
    let (year, month, day) = civil_from_days(days as i64);
    assert(year >= 0);
    let mut r = padded_decimal(year as u64, 4);
    r.append("-");
    r.append(padded_decimal(month as u64, 2).as_str());
    r.append("-");
    r.append(padded_decimal(day as u64, 2).as_str());
    r
}

// ----------------------------------------------------------------------------------------------
// The calendar
// ----------------------------------------------------------------------------------------------

/// Leap years of the Gregorian calendar.
pub open spec fn is_leap_year(y: int) -> bool {
    y % 4 == 0 && (y % 100 != 0 || y % 400 == 0)
}

pub open spec fn leap_day(y: int) -> int {
    if is_leap_year(y) {
        1
    } else {
        0
    }
}

/// The number of days in month `m` of year `y`.
pub open spec fn month_days(y: int, m: int) -> int {
    if m == 2 {
        28 + leap_day(y)
    } else if m == 4 || m == 6 || m == 9 || m == 11 {
        30
    } else {
        31
    }
}

/// The days of year `y` before month `m`.
pub open spec fn days_before_month(y: int, m: int) -> int
    decreases m,
{
    if m <= 1 {
        0
    } else {
        days_before_month(y, m - 1) + month_days(y, m - 1)
    }
}

/// How many leap years come before year `y` (counted from year 1, negative before it).
pub open spec fn leap_years_before(y: int) -> int {
    (y - 1) / 4 - (y - 1) / 100 + (y - 1) / 400
}

/// The days from 1970-01-01 to the first day of year `y`.
pub open spec fn days_before_year(y: int) -> int {
    365 * (y - 1970) + leap_years_before(y) - leap_years_before(1970)
}

/// The days from 1970-01-01 to the date `y-m-d`.
pub open spec fn days_from_civil(y: int, m: int, d: int) -> int {
    days_before_year(y) + days_before_month(y, m) + d - 1
}

proof fn lemma_div_step(y: int, k: int)
    requires
        k > 0,
    ensures
        y / k - (y - 1) / k == (if y % k == 0 {
            1int
        } else {
            0int
        }),
{
    let q = y / k;
    let r = y % k;
    vstd::arithmetic::div_mod::lemma_fundamental_div_mod(y, k);
    assert(k * q == q * k) by (nonlinear_arith);
    assert((q - 1) * k == q * k - k) by (nonlinear_arith);
    assert(0 <= r < k) by {
        vstd::arithmetic::div_mod::lemma_mod_bound(y, k);
    }
    if r == 0 {
        vstd::arithmetic::div_mod::lemma_fundamental_div_mod_converse(y - 1, k, q - 1, k - 1);
    } else {
        vstd::arithmetic::div_mod::lemma_fundamental_div_mod_converse(y - 1, k, q, r - 1);
    }
}

proof fn lemma_leap_years_step(y: int)
    ensures
        leap_years_before(y + 1) == leap_years_before(y) + leap_day(y),
{
    lemma_div_step(y, 4);
    lemma_div_step(y, 100);
    lemma_div_step(y, 400);
}

proof fn lemma_march_offsets(y: int, mp: int)
    requires
        0 <= mp <= 11,
    ensures
        mp < 10 ==> days_before_month(y, mp + 3) == 59 + leap_day(y) + (153 * mp + 2) / 5,
        mp >= 10 ==> days_before_year(y + 1) + days_before_month(y + 1, mp - 9) == days_before_year(y) + 59
            + leap_day(y) + (153 * mp + 2) / 5,
{
    reveal_with_fuel(days_before_month, 13);
    lemma_leap_years_step(y);
}

/// Shifting a year by whole eras of 400 years leaves `x / k` and `x % k` shifted in step, for
/// `k` dividing 400.
proof fn lemma_era_div(era: int, x: int, k: int)
    requires
        k == 4 || k == 100 || k == 400,
    ensures
        (era * 400 + x) / k == era * (400int / k) + x / k,
        (era * 400 + x) % k == x % k,
{
    vstd::arithmetic::div_mod::lemma_fundamental_div_mod(x, k);
    vstd::arithmetic::div_mod::lemma_mod_bound(x, k);
    assert(era * 400 == (era * (400int / k)) * k) by (nonlinear_arith)
        requires
            k == 4 || k == 100 || k == 400,
    ;
    assert(x / k * k == k * (x / k)) by (nonlinear_arith);
    assert((era * (400int / k)) * k + (x / k) * k == (era * (400int / k) + x / k) * k) by (nonlinear_arith);
    vstd::arithmetic::div_mod::lemma_fundamental_div_mod_converse(
        era * 400 + x,
        k,
        era * (400int / k) + x / k,
        x % k,
    );
}

#[verifier::spinoff_prover]
proof fn lemma_era_shift(era: int, yoe: int)
    requires
        0 <= yoe <= 399,
    ensures
        leap_years_before(era * 400 + yoe) == era * 97 + leap_years_before(yoe),
        leap_day(era * 400 + yoe) == leap_day(yoe),
{
    lemma_era_div(era, yoe - 1, 4);
    lemma_era_div(era, yoe - 1, 100);
    lemma_era_div(era, yoe - 1, 400);
    lemma_era_div(era, yoe, 4);
    lemma_era_div(era, yoe, 100);
    lemma_era_div(era, yoe, 400);
    assert(era * 400 + (yoe - 1) == era * 400 + yoe - 1);
}

proof fn lemma_days_before_march(era: int, yoe: int)
    requires
        0 <= yoe <= 399,
    ensures
        days_before_year(era * 400 + yoe) + 59 + leap_day(era * 400 + yoe) == era * 146097 + 365 * yoe + yoe / 4
            - yoe / 100 - 719468,
{
    lemma_era_shift(era, yoe);
    assert(leap_years_before(1970) == 477);
    assert(leap_years_before(yoe) + leap_day(yoe) == yoe / 4 - yoe / 100);
}

/// `civil_from_days` is the inverse of counting days: the date it gives for `days` is `days`
/// days after 1970-01-01.
pub proof fn lemma_civil_round_trip(days: int)
    ensures
        ({
            let (y, m, d) = civil_of(days);
            1 <= m <= 12 && days_from_civil(y, m, d) == days
        }),
{
    let z = days + 719468;
    let era = z / 146097;
    let doe = z - era * 146097;
    assert(0 <= doe <= 146096);
    lemma_civil_ranges(doe);
    let yoe = (doe - doe / 1460 + doe / 36524 - doe / 146096) / 365;
    let y = yoe + era * 400;
    let doy = doe - (365 * yoe + yoe / 4 - yoe / 100);
    lemma_month_ranges(doy);
    let mp = (5 * doy + 2) / 153;
    let d = doy - (153 * mp + 2) / 5 + 1;
    lemma_days_before_march(era, yoe);
    lemma_march_offsets(y, mp);
    assert(era * 400 + yoe == y);
}

proof fn lemma_year_lengths(y1: int, y2: int)
    requires
        y1 < y2,
    ensures
        days_before_year(y1) + 365 + leap_day(y1) <= days_before_year(y2),
    decreases y2 - y1,
{
    lemma_leap_years_step(y2 - 1);
    if y1 < y2 - 1 {
        lemma_year_lengths(y1, y2 - 1);
    }
}

proof fn lemma_month_starts(y: int, m1: int, m2: int)
    requires
        1 <= m1 < m2,
    ensures
        days_before_month(y, m1) + month_days(y, m1) <= days_before_month(y, m2),
    decreases m2 - m1,
{
    if m1 < m2 - 1 {
        lemma_month_starts(y, m1, m2 - 1);
    }
}

/// A day number names one date: two real dates with the same number of days from 1970-01-01
/// are the same date.
pub proof fn lemma_civil_dates_distinct(y1: int, m1: int, d1: int, y2: int, m2: int, d2: int)
    requires
        1 <= m1 <= 12,
        1 <= d1 <= month_days(y1, m1),
        1 <= m2 <= 12,
        1 <= d2 <= month_days(y2, m2),
        days_from_civil(y1, m1, d1) == days_from_civil(y2, m2, d2),
    ensures
        y1 == y2 && m1 == m2 && d1 == d2,
{
    assert(days_before_month(y1, 13) == 365 + leap_day(y1)) by {
        reveal_with_fuel(days_before_month, 13);
    }
    assert(days_before_month(y2, 13) == 365 + leap_day(y2)) by {
        reveal_with_fuel(days_before_month, 13);
    }
    lemma_month_starts(y1, m1, 13);
    lemma_month_starts(y2, m2, 13);
    if m1 > 1 {
        lemma_month_starts(y1, 1, m1);
    }
    if m2 > 1 {
        lemma_month_starts(y2, 1, m2);
    }
    if y1 < y2 {
        lemma_year_lengths(y1, y2);
    } else if y2 < y1 {
        lemma_year_lengths(y2, y1);
    } else if m1 < m2 {
        lemma_month_starts(y1, m1, m2);
    } else if m2 < m1 {
        lemma_month_starts(y1, m2, m1);
    }
}

/// `civil_of(days)` is the one real date that lies `days` days after 1970-01-01.
pub proof fn lemma_civil_unique(days: int, y: int, m: int, d: int)
    requires
        1 <= m <= 12,
        1 <= d <= month_days(y, m),
        days_from_civil(y, m, d) == days,
    ensures
        civil_of(days) == (y, m, d),
{
    lemma_civil_round_trip(days);
    lemma_civil_valid(days);
    let (cy, cm, cd) = civil_of(days);
    lemma_civil_dates_distinct(cy, cm, cd, y, m, d);
}

/// The year of a 400-year era that its day `doe` falls in (years start on March 1).
pub open spec fn year_of_era(doe: int) -> int {
    (doe - doe / 1460 + doe / 36524 - doe / 146096) / 365
}

/// The day of the era on which year `yoe` of the era starts.
pub open spec fn era_year_start(yoe: int) -> int {
    365 * yoe + yoe / 4 - yoe / 100
}

proof fn lemma_year_of_era_step(d: int)
    requires
        0 <= d < 146096,
    ensures
        year_of_era(d) <= year_of_era(d + 1),
{
    lemma_div_step(d + 1, 1460);
    lemma_div_step(d + 1, 36524);
    lemma_div_step(d + 1, 146096);
    if (d + 1) % 146096 == 0 {
        vstd::arithmetic::div_mod::lemma_fundamental_div_mod(d + 1, 146096);
        assert(d + 1 == 146096);
    }
    let x = d - d / 1460 + d / 36524 - d / 146096;
    let y = (d + 1) - (d + 1) / 1460 + (d + 1) / 36524 - (d + 1) / 146096;
    assert(x <= y);
    vstd::arithmetic::div_mod::lemma_div_is_ordered(x, y, 365);
}

proof fn lemma_year_of_era_monotone(a: int, b: int)
    requires
        0 <= a <= b <= 146096,
    ensures
        year_of_era(a) <= year_of_era(b),
    decreases b - a,
{
    if a < b {
        lemma_year_of_era_monotone(a, b - 1);
        lemma_year_of_era_step(b - 1);
    }
}

proof fn lemma_year_of_era_at_start(k: int)
    requires
        0 <= k <= 399,
    ensures
        year_of_era(era_year_start(k)) == k,
{
    let a = k / 4;
    let c = k / 100;
    let e = k % 100;
    let s = era_year_start(k);
    assert(k == 4 * a + k % 4 && 0 <= k % 4 < 4);
    assert(k == 100 * c + e && 0 <= e < 100);
    assert(a == 25 * c + e / 4);
    vstd::arithmetic::div_mod::lemma_fundamental_div_mod_converse(s, 1460, a, s - 1460 * a);
    vstd::arithmetic::div_mod::lemma_fundamental_div_mod_converse(s, 36524, c, s - 36524 * c);
    vstd::arithmetic::div_mod::lemma_fundamental_div_mod_converse(s, 146096, 0, s);
    vstd::arithmetic::div_mod::lemma_fundamental_div_mod_converse(365 * k, 365, k, 0);
}

proof fn lemma_day_of_year_bound(doe: int)
    requires
        0 <= doe <= 146096,
    ensures
        0 <= year_of_era(doe) <= 399,
        0 <= doe - era_year_start(year_of_era(doe)) <= 364 + leap_day(year_of_era(doe) + 1),
{
    lemma_civil_ranges(doe);
    let k = year_of_era(doe);
    if k < 399 {
        if doe >= era_year_start(k + 1) {
            lemma_year_of_era_at_start(k + 1);
            lemma_year_of_era_monotone(era_year_start(k + 1), doe);
        }
        lemma_div_step(k + 1, 4);
        lemma_div_step(k + 1, 100);
        assert((k + 1) % 400 != 0);
    }
}

proof fn lemma_march_month_lengths(doy: int)
    requires
        0 <= doy <= 365,
    ensures
        ({
            let mp = (5 * doy + 2) / 153;
            let d = doy - (153 * mp + 2) / 5 + 1;
            &&& mp == 11 ==> d == doy - 336
            &&& mp < 11 ==> d <= (if mp == 1 || mp == 3 || mp == 6 || mp == 8 {
                30int
            } else {
                31int
            })
        }),
{
    let mp = (5 * doy + 2) / 153;
    assert(153 * mp <= 5 * doy + 2 < 153 * mp + 153);
}

/// The date `civil_from_days` gives is a real day of the calendar: its month is 1..=12 and its
/// day lies within that month (February has a 29th only in leap years).
pub proof fn lemma_civil_valid(days: int)
    ensures
        ({
            let (y, m, d) = civil_of(days);
            1 <= m <= 12 && 1 <= d <= month_days(y, m)
        }),
{
    let z = days + 719468;
    let era = z / 146097;
    let doe = z - era * 146097;
    assert(0 <= doe <= 146096);
    lemma_civil_ranges(doe);
    lemma_day_of_year_bound(doe);
    let yoe = year_of_era(doe);
    let doy = doe - era_year_start(yoe);
    lemma_month_ranges(doy);
    lemma_march_month_lengths(doy);
    let mp = (5 * doy + 2) / 153;
    if mp == 11 {
        if yoe < 399 {
            lemma_era_shift(era, yoe + 1);
            assert(era * 400 + (yoe + 1) == yoe + era * 400 + 1);
        } else {
            lemma_era_shift(era + 1, 0);
            assert((era + 1) * 400 + 0 == yoe + era * 400 + 1);
            assert(leap_day(0) == 1);
            assert(leap_day(400) == 1);
        }
    }
}

} // verus!
