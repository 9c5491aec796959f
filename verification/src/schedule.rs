//! Schedules: interval strings (`5m`, `@every 1h`), aliases (`@daily`), cron
//! expressions, one-shot times, and the computation of the next run time.
//!
//! Times are UTC timestamps in milliseconds since the Unix epoch.
use vstd::prelude::*;
use chrono::{Datelike, Timelike};

use crate::cron::{CronExpression, ScheduleError, ScheduleErrorView, cron_expr_spec, expr_lists};
use crate::duration::Duration;
use crate::report::DAY_MS;
use crate::text::{
    chars_of, ends_with, has_prefix, has_suffix, lowercase, parse_u64, parse_unsigned,
    slice_range, split_whitespace, starts_with, to_lowercase_chars, trim, trim_chars, words,
};

verus! {

// ---------------------------------------------------------------------------
// Time
// ---------------------------------------------------------------------------

/// The earliest instant a UTC date-time can hold (year -262143), in milliseconds.
pub const MIN_TIMESTAMP_MS: i64 = -8_334_601_315_200_000;

/// The latest instant a UTC date-time can hold (end of year 262142), in milliseconds.
pub const MAX_TIMESTAMP_MS: i64 = 8_210_266_876_799_999;

/// The longest time delta, `i64::MAX` milliseconds, in nanoseconds.
pub const MAX_DELTA_NANOS: u128 = 9_223_372_036_854_775_807_000_000;

/// Milliseconds in one minute.
pub const MINUTE_MS: i64 = 60_000;

/// How far ahead a cron search looks: four leap-year lengths, in milliseconds.
pub const CRON_HORIZON_MS: i64 = 126_489_600_000;

/// `t` is an instant a UTC date-time can hold.
pub open spec fn in_range(t: int) -> bool {
    MIN_TIMESTAMP_MS <= t <= MAX_TIMESTAMP_MS
}

/// The current time (`chrono::Utc::now`), in milliseconds. `Utc::now`
/// panics when the system clock reads before the Unix epoch; whenever it
/// returns, the time is at or after the epoch and within chrono's range.
#[verifier::external_body]
pub(crate) fn now_ms() -> (t: i64)
    ensures
        in_range(t as int),
        t >= 0,
{
    chrono::Utc::now().timestamp_millis()
}

/// The current time (`chrono::Utc::now`), in whole seconds (`timestamp`,
/// rounded down). `Utc::now` panics when the system clock reads before the
/// Unix epoch; whenever it returns, the time is at or after the epoch and
/// within chrono's range of instants.
#[verifier::external_body]
pub(crate) fn now_secs() -> (t: i64)
    ensures
        -8_334_601_315_201 <= t <= 8_210_266_876_799,
        t >= 0,
{
    chrono::Utc::now().timestamp()
}

/// The calendar fields of a UTC instant.
#[derive(Debug, Clone, Copy)]
pub struct Civil {
    pub year: i32,
    pub month: u32,
    pub day: u32,
    pub weekday_from_sunday: u32,
    pub hour: u32,
    pub minute: u32,
}

/// `y` is a leap year of the Gregorian calendar.
pub open spec fn is_leap_year(y: int) -> bool {
    (y % 4 == 0 && y % 100 != 0) || y % 400 == 0
}

/// The number of days of month `m` (1-12) of year `y`.
pub open spec fn days_in_month(y: int, m: int) -> int {
    if m == 2 {
        if is_leap_year(y) {
            29
        } else {
            28
        }
    } else if m == 4 || m == 6 || m == 9 || m == 11 {
        30
    } else {
        31
    }
}

/// The date (year, month, day) following the date `c`.
pub open spec fn date_after(c: (int, int, int)) -> (int, int, int) {
    if c.2 < days_in_month(c.0, c.1) {
        (c.0, c.1, c.2 + 1)
    } else if c.1 < 12 {
        (c.0, c.1 + 1, 1)
    } else {
        (c.0 + 1, 1, 1)
    }
}

/// The date (year, month, day) preceding the date `c`.
pub open spec fn date_before(c: (int, int, int)) -> (int, int, int) {
    if c.2 > 1 {
        (c.0, c.1, c.2 - 1)
    } else if c.1 > 1 {
        (c.0, c.1 - 1, days_in_month(c.0, c.1 - 1))
    } else {
        (c.0 - 1, 12, 31)
    }
}

/// `c` is a date: a month from 1 to 12 and a day within that month.
pub open spec fn valid_date(c: (int, int, int)) -> bool {
    1 <= c.1 <= 12 && 1 <= c.2 <= days_in_month(c.0, c.1)
}

/// The distance of `n` from zero.
pub open spec fn abs_int(n: int) -> int {
    if n >= 0 {
        n
    } else {
        -n
    }
}

/// The date of day `n` of the proleptic Gregorian calendar, counting
/// 1970-01-01 as day 0.
#[verifier::opaque]
pub open spec fn civil_date(n: int) -> (int, int, int)
    decreases abs_int(n),
{
    if n == 0 {
        (1970, 1, 1)
    } else if n > 0 {
        date_after(civil_date(n - 1))
    } else {
        date_before(civil_date(n + 1))
    }
}

/// The date (year, month, day) of the UTC instant `t`.
pub open spec fn utc_date(t: i64) -> (int, int, int) {
    civil_date(t as int / DAY_MS as int)
}

/// The month (1-12) of the UTC instant `t`.
pub open spec fn utc_month(t: i64) -> u32 {
    utc_date(t).1 as u32
}

/// The day of the month (1-31) of the UTC instant `t`.
pub open spec fn utc_day(t: i64) -> u32 {
    utc_date(t).2 as u32
}

/// Every day of the calendar has a valid date.
pub proof fn lemma_civil_date_valid(n: int)
    ensures
        valid_date(civil_date(n)),
    decreases abs_int(n),
{
    reveal(civil_date);
    if n > 0 {
        lemma_civil_date_valid(n - 1);
    } else if n < 0 {
        lemma_civil_date_valid(n + 1);
    }
}

/// Day `n + 1` has the date following that of day `n`.
pub proof fn lemma_civil_date_next(n: int)
    ensures
        civil_date(n + 1) == date_after(civil_date(n)),
{
    reveal(civil_date);
    if n < 0 {
        lemma_civil_date_valid(n + 1);
    }
}

/// From a date (y, m, d), the days up to the end of its month keep its
/// year and month: day `n + k` is (y, m, d + k) while d + k fits the month.
pub proof fn lemma_month_run(n: int, k: int)
    requires
        0 <= k <= days_in_month(civil_date(n).0, civil_date(n).1) - civil_date(n).2,
    ensures
        civil_date(n + k) == (civil_date(n).0, civil_date(n).1, civil_date(n).2 + k),
    decreases k,
{
    if k > 0 {
        lemma_month_run(n, k - 1);
        lemma_civil_date_next(n + k - 1);
    }
}

/// The day of the week of the UTC instant `t`, counted from Sunday = 0
/// (the Unix epoch fell on a Thursday).
pub open spec fn utc_weekday(t: i64) -> u32 {
    ((t as int / DAY_MS as int + 4) % 7) as u32
}

/// The hour (0-23) of the UTC instant `t`.
pub open spec fn utc_hour(t: i64) -> u32 {
    ((t as int / HOUR_MS as int) % 24) as u32
}

/// The minute (0-59) of the UTC instant `t`.
pub open spec fn utc_minute(t: i64) -> u32 {
    ((t as int / MINUTE_MS as int) % 60) as u32
}

/// The calendar fields of `t`, from `chrono::DateTime::from_timestamp_millis`
/// and its `year`, `month`, `day`, `weekday().num_days_from_sunday()`,
/// `hour` and `minute` getters. chrono's dates are those of the proleptic
/// Gregorian calendar (`civil_date`, day 0 being 1970-01-01, the day of `t`
/// being `t` divided by the length of a day, rounded down); the time of day
/// and the weekday are the arithmetic they are.
#[verifier::external_body]
fn civil_of(t: i64) -> (c: Civil)
    requires
        in_range(t as int),
    ensures
        c.year as int == utc_date(t).0,
        c.month as int == utc_date(t).1,
        c.day as int == utc_date(t).2,
        c.weekday_from_sunday == utc_weekday(t),
        c.hour == utc_hour(t),
        c.minute == utc_minute(t),
{
    let dt = chrono::DateTime::from_timestamp_millis(t).unwrap();
    Civil {
        year: dt.year(),
        month: dt.month(),
        day: dt.day(),
        weekday_from_sunday: dt.weekday().num_days_from_sunday(),
        hour: dt.hour(),
        minute: dt.minute(),
    }
}

/// A strftime pattern this library renders instants with.
pub open spec fn known_pattern(p: Seq<char>) -> bool {
    ||| p == "%Y-%m-%d %H:%M UTC"@
    ||| p == "%Y-%m-%d %H:%M:%S UTC"@
    ||| p == "%Y-%m-%d"@
    ||| p == "%Y%m%d"@
    ||| p == "%Y%m%d_%H%M%S"@
}

/// The text chrono renders for the UTC instant `t` (milliseconds) with the
/// strftime pattern `p`.
pub uninterp spec fn utc_text(t: i64, p: Seq<char>) -> Seq<char>;

/// The last `w` decimal digits of `n`, zero-padded.
pub open spec fn padded(n: nat, w: nat) -> Seq<char>
    decreases w,
{
    if w == 0 {
        Seq::empty()
    } else {
        padded(n / 10, (w - 1) as nat).push(((n % 10) + 48) as char)
    }
}

/// The second (0-59) of the UTC instant `t`.
pub open spec fn utc_second(t: i64) -> nat {
    ((t as int / 1000) % 60) as nat
}

/// The rendering of `t` with the known pattern `p`, for a year from 0 to
/// 9999: `%Y` four digits, `%m`, `%d`, `%H`, `%M` and `%S` two, all
/// zero-padded.
pub open spec fn utc_rendered(t: i64, p: Seq<char>) -> Seq<char> {
    let d = utc_date(t);
    let y = padded(d.0 as nat, 4);
    let mo = padded(d.1 as nat, 2);
    let dd = padded(d.2 as nat, 2);
    let h = padded(utc_hour(t) as nat, 2);
    let mi = padded(utc_minute(t) as nat, 2);
    let sec = padded(utc_second(t), 2);
    if p == "%Y-%m-%d %H:%M UTC"@ {
        y + seq!['-'] + mo + seq!['-'] + dd + seq![' '] + h + seq![':'] + mi + " UTC"@
    } else if p == "%Y-%m-%d %H:%M:%S UTC"@ {
        y + seq!['-'] + mo + seq!['-'] + dd + seq![' '] + h + seq![':'] + mi + seq![':'] + sec + " UTC"@
    } else if p == "%Y-%m-%d"@ {
        y + seq!['-'] + mo + seq!['-'] + dd
    } else if p == "%Y%m%d"@ {
        y + mo + dd
    } else {
        y + mo + dd + seq!['_'] + h + mi + sec
    }
}

/// `DateTime::from_timestamp_millis(t)` rendered with `format(pattern)` and
/// `to_string`. The text is named; for the years 0 to 9999 it is the fields
/// of `t`, zero-padded (chrono writes a sign before years outside them).
#[verifier::external_body]
pub(crate) fn format_utc(t: i64, pattern: &str) -> (s: String)
    requires
        in_range(t as int),
        known_pattern(pattern@),
    ensures
        s@ == utc_text(t, pattern@),
        0 <= utc_date(t).0 <= 9999 ==> s@ == utc_rendered(t, pattern@),
{
    chrono::DateTime::from_timestamp_millis(t).unwrap().format(pattern).to_string()
}

/// Append the rendering of `t` with `pattern` to `out`.
pub fn put_time(out: &mut Vec<char>, t: i64, pattern: &str)
    requires
        in_range(t as int),
        known_pattern(pattern@),
    ensures
        final(out)@ == old(out)@ + utc_text(t, pattern@),
{
    let s = format_utc(t, pattern);
    crate::text::put(out, s.as_str());
}

/// Milliseconds in one hour.
pub const HOUR_MS: i64 = 3_600_000;

/// The instant `s` if it is representable.
pub open spec fn if_in_range(s: int) -> Option<i64> {
    if in_range(s) {
        Some(s as i64)
    } else {
        None
    }
}

/// The start of the month after the one holding `t`, if representable:
/// midnight of the day that follows the last day of `t`'s month.
pub open spec fn next_month_start(t: i64) -> Option<i64> {
    let d = utc_date(t);
    if_in_range(t - (t as int) % (DAY_MS as int) + (days_in_month(d.0, d.1) - d.2 + 1) * DAY_MS)
}

/// The start of the day after the one holding `t`, if representable.
pub open spec fn next_day_start(t: i64) -> Option<i64> {
    if_in_range(t - (t as int) % (DAY_MS as int) + DAY_MS)
}

/// The start of the hour after the one holding `t`, if representable.
pub open spec fn next_hour_start(t: i64) -> Option<i64> {
    if_in_range(t - (t as int) % (HOUR_MS as int) + HOUR_MS)
}

/// The number of days of month `m` of year `y`.
fn days_in_month_of(y: i32, m: u32) -> (r: i64)
    requires
        1 <= m <= 12,
    ensures
        r == days_in_month(y as int, m as int),
{
    let y: i64 = y as i64;
    let r4: i64 = ((y % 4) + 4) % 4;
    let r100: i64 = ((y % 100) + 100) % 100;
    let r400: i64 = ((y % 400) + 400) % 400;
    assert(r4 == (y as int) % 4 && r100 == (y as int) % 100 && r400 == (y as int) % 400) by {
        assert(0 <= r4 < 4 && 0 <= r100 < 100 && 0 <= r400 < 400);
    }
    if m == 2 {
        if (r4 == 0 && r100 != 0) || r400 == 0 {
            29
        } else {
            28
        }
    } else if m == 4 || m == 6 || m == 9 || m == 11 {
        30
    } else {
        31
    }
}

/// Midnight on the first of the month after the one holding `t`.
fn advance_month(t: i64) -> (r: Option<i64>)
    requires
        in_range(t as int),
    ensures
        r == next_month_start(t),
{
    let f = civil_of(t);
    proof {
        lemma_civil_date_valid(t as int / DAY_MS as int);
    }
    let dim = days_in_month_of(f.year, f.month);
    let rem: i64 = ((t % DAY_MS) + DAY_MS) % DAY_MS;
    assert(rem == (t as int) % (DAY_MS as int)) by {
        assert(0 <= rem < DAY_MS);
    }
    let days: i128 = dim as i128 - f.day as i128 + 1;
    checked_instant(t as i128 - rem as i128 + days * DAY_MS as i128)
}

/// The instant `s` if it is representable.
fn checked_instant(s: i128) -> (r: Option<i64>)
    ensures
        r == if_in_range(s as int),
{
    if MIN_TIMESTAMP_MS as i128 <= s && s <= MAX_TIMESTAMP_MS as i128 {
        Some(s as i64)
    } else {
        None
    }
}

/// Midnight UTC of the day after the one holding `t`.
fn advance_day(t: i64) -> (r: Option<i64>)
    ensures
        r == next_day_start(t),
{
    let rem: i64 = ((t % DAY_MS) + DAY_MS) % DAY_MS;
    assert(rem == (t as int) % (DAY_MS as int)) by {
        assert(0 <= rem < DAY_MS);
    }
    checked_instant(t as i128 - rem as i128 + DAY_MS as i128)
}

/// The start of the hour after the one holding `t`.
fn advance_hour(t: i64) -> (r: Option<i64>)
    ensures
        r == next_hour_start(t),
{
    let rem: i64 = ((t % HOUR_MS) + HOUR_MS) % HOUR_MS;
    assert(rem == (t as int) % (HOUR_MS as int)) by {
        assert(0 <= rem < HOUR_MS);
    }
    checked_instant(t as i128 - rem as i128 + HOUR_MS as i128)
}

/// Whether `v` holds `x`.
pub fn contains_u8(v: &Vec<u8>, x: u8) -> (b: bool)
    ensures
        b == v@.contains(x),
{
    let mut i: usize = 0;
    while i < v.len()
        invariant
            i <= v@.len(),
            forall|j: int| 0 <= j < i ==> v@[j] != x,
        decreases v@.len() - i,
    {
        if v[i] == x {
            assert(v@[i as int] == x);
            return true;
        }
        i = i + 1;
    }
    false
}

/// The instant `t` matches every field of the cron expression `c`.
pub open spec fn cron_matches(c: CronExpression, t: i64) -> bool {
    &&& c.months@.contains(utc_month(t) as u8)
    &&& c.days_of_month@.contains(utc_day(t) as u8)
    &&& c.days_of_week@.contains(utc_weekday(t) as u8)
    &&& c.hours@.contains(utc_hour(t) as u8)
    &&& c.minutes@.contains(utc_minute(t) as u8)
}

/// `after` leaves room for a full cron search within the representable range.
pub open spec fn cron_search_fits(after: int) -> bool {
    MIN_TIMESTAMP_MS <= after && after + CRON_HORIZON_MS + MINUTE_MS <= MAX_TIMESTAMP_MS
}

/// The first candidate of a cron search after `after`: the next whole
/// minute (`after` rounded down to the minute, plus one minute).
pub open spec fn cron_start(after: i64) -> int {
    after - (after as int % MINUTE_MS as int) + MINUTE_MS
}

/// `u` is a whole minute.
pub open spec fn whole_minute(u: int) -> bool {
    u % (MINUTE_MS as int) == 0
}

/// No whole minute from `lo` up to (not including) `hi` matches `c`.
pub open spec fn no_match_between(c: CronExpression, lo: int, hi: int) -> bool {
    forall|u: int| lo <= u < hi && #[trigger] whole_minute(u) && in_range(u) ==> !cron_matches(c, u as i64)
}

/// The cron search from candidate `dt` (below `limit`): a month, day or hour
/// that cannot match is skipped to the start of the next one, a minute that
/// cannot match to the next minute, and the first candidate matching every
/// field is the answer; none once the candidates reach `limit`.
pub open spec fn cron_search(c: CronExpression, dt: int, limit: int) -> Option<i64>
    decreases limit - dt,
{
    if dt >= limit || !in_range(dt) {
        None
    } else {
        let t = dt as i64;
        if !c.months@.contains(utc_month(t) as u8) {
            match next_month_start(t) {
                Some(n) => if n >= limit || n <= dt {
                    None
                } else {
                    cron_search(c, n as int, limit)
                },
                None => None,
            }
        } else if !c.days_of_month@.contains(utc_day(t) as u8) || !c.days_of_week@.contains(utc_weekday(t) as u8) {
            match next_day_start(t) {
                Some(n) => if n >= limit || n <= dt {
                    None
                } else {
                    cron_search(c, n as int, limit)
                },
                None => None,
            }
        } else if !c.hours@.contains(utc_hour(t) as u8) {
            match next_hour_start(t) {
                Some(n) => if n >= limit || n <= dt {
                    None
                } else {
                    cron_search(c, n as int, limit)
                },
                None => None,
            }
        } else if !c.minutes@.contains(utc_minute(t) as u8) {
            if dt + MINUTE_MS >= limit {
                None
            } else {
                cron_search(c, dt + MINUTE_MS, limit)
            }
        } else {
            Some(t)
        }
    }
}

impl CronExpression {
    /// The first whole minute after `after` that matches, searching up to
    /// four years ahead: `None` when no whole minute in that time matches.
    ///
    /// The search starts at the next whole minute and skips whole months,
    /// days and hours that cannot match.
    pub fn next_after(&self, after: i64) -> (r: Option<i64>)
        requires
            cron_search_fits(after as int),
        ensures
            r == cron_search(*self, cron_start(after), after + CRON_HORIZON_MS),
            r matches Some(t) ==> {
                &&& after < t < after + CRON_HORIZON_MS
                &&& whole_minute(t as int)
                &&& cron_matches(*self, t)
                &&& no_match_between(*self, after + 1, t as int)
            },
            r is None ==> no_match_between(*self, after + 1, after + CRON_HORIZON_MS),
    {
        let r = self.search_from(after);
        proof {
            let start = cron_start(after);
            let limit = after + CRON_HORIZON_MS;
            lemma_cron_start(after as int);
            lemma_cron_search_law(*self, start, limit);
            match r {
                Some(t) => lemma_no_match_join(*self, after + 1, start, t as int),
                None => lemma_no_match_join(*self, after + 1, start, limit),
            }
        }
        r
    }

    /// The cron search from the next whole minute after `after`.
    fn search_from(&self, after: i64) -> (r: Option<i64>)
        requires
            cron_search_fits(after as int),
        ensures
            r == cron_search(*self, cron_start(after), after + CRON_HORIZON_MS),
            r matches Some(t) ==> {
                &&& after < t < after + CRON_HORIZON_MS
                &&& cron_matches(*self, t)
            },
    {
        let rem: i64 = ((after % MINUTE_MS) + MINUTE_MS) % MINUTE_MS;
        assert(rem == (after as int) % (MINUTE_MS as int)) by {
            assert(0 <= rem < MINUTE_MS);
        }
        let mut dt: i64 = after - rem + MINUTE_MS;
        let limit: i64 = after + CRON_HORIZON_MS;
        while dt < limit
            invariant
                after < dt <= limit + MINUTE_MS,
                limit == after + CRON_HORIZON_MS,
                cron_search_fits(after as int),
                cron_search(*self, dt as int, limit as int) == cron_search(*self, cron_start(after), limit as int),
            decreases limit + MINUTE_MS - dt,
        {
            let f = civil_of(dt);
            proof {
                lemma_civil_date_valid(dt as int / DAY_MS as int);
            }
            if !contains_u8(&self.months, f.month as u8) {
                match advance_month(dt) {
                    Some(n) => {
                        if n >= limit || n <= dt {
                            return None;
                        }
                        dt = n;
                    },
                    None => {
                        return None;
                    },
                }
                continue;
            }
            if !contains_u8(&self.days_of_month, f.day as u8) || !contains_u8(
                &self.days_of_week,
                f.weekday_from_sunday as u8,
            ) {
                match advance_day(dt) {
                    Some(n) => {
                        if n >= limit {
                            return None;
                        }
                        dt = n;
                    },
                    None => {
                        return None;
                    },
                }
                continue;
            }
            if !contains_u8(&self.hours, f.hour as u8) {
                match advance_hour(dt) {
                    Some(n) => {
                        if n >= limit {
                            return None;
                        }
                        dt = n;
                    },
                    None => {
                        return None;
                    },
                }
                continue;
            }
            if !contains_u8(&self.minutes, f.minute as u8) {
                dt = dt + MINUTE_MS;
                continue;
            }
            return Some(dt);
        }
        None
    }
}

/// The window after `t` up to the end of its `m`-long period, stretched by
/// `k - 1` more periods, holds the periods `t / m` to `t / m + k - 1`.
proof fn lemma_floor_window(u: int, t: int, m: int, k: int)
    requires
        m > 0,
        k >= 1,
        t <= u,
        u < t - t % m + k * m,
    ensures
        t / m <= u / m < t / m + k,
{
    vstd::arithmetic::div_mod::lemma_fundamental_div_mod(t, m);
    vstd::arithmetic::div_mod::lemma_fundamental_div_mod(u, m);
    vstd::arithmetic::div_mod::lemma_div_is_ordered(t, u, m);
    let qt = t / m;
    let qu = u / m;
    assert(qu < qt + k) by (nonlinear_arith)
        requires
            u == m * qu + u % m,
            0 <= u % m,
            t - t % m == m * qt,
            u < t - t % m + k * m,
            m > 0,
    ;
}

/// The end of the hour or day holding `t`, stretched by `k - 1` more,
/// is a whole minute after `t`.
proof fn lemma_window_end(t: int, m: int, k: int)
    requires
        m == HOUR_MS || m == DAY_MS,
        k >= 1,
    ensures
        whole_minute(t - t % m + k * m),
        t - t % m + k * m > t,
{
    vstd::arithmetic::div_mod::lemma_fundamental_div_mod(t, m);
    let q = t / m + k;
    assert(t - t % m + k * m == m * q);
    if m == HOUR_MS {
        assert(m * q == (60 * q) * MINUTE_MS);
        vstd::arithmetic::div_mod::lemma_mod_multiples_basic(60 * q, MINUTE_MS as int);
    } else {
        assert(m * q == (1440 * q) * MINUTE_MS);
        vstd::arithmetic::div_mod::lemma_mod_multiples_basic(1440 * q, MINUTE_MS as int);
    }
}

/// The first candidate of a search is the first whole minute after `after`.
proof fn lemma_cron_start(after: int)
    ensures
        whole_minute(after - after % (MINUTE_MS as int) + MINUTE_MS),
        after < after - after % (MINUTE_MS as int) + MINUTE_MS,
        forall|u: int| after < u < after - after % (MINUTE_MS as int) + MINUTE_MS ==> !#[trigger] whole_minute(u),
{
    let m = MINUTE_MS as int;
    vstd::arithmetic::div_mod::lemma_fundamental_div_mod(after, m);
    let q = after / m + 1;
    assert(after - after % m + m == q * m);
    vstd::arithmetic::div_mod::lemma_mod_multiples_basic(q, m);
    assert forall|u: int| after < u < after - after % m + m implies !#[trigger] whole_minute(u) by {
        if whole_minute(u) {
            lemma_floor_window(u, after, m, 1);
            vstd::arithmetic::div_mod::lemma_fundamental_div_mod(u, m);
        }
    }
}

/// No whole minute in [a, b) and no match in [b, x) is no match in [a, x).
proof fn lemma_no_match_join(c: CronExpression, a: int, b: int, x: int)
    requires
        forall|u: int| a <= u < b ==> !#[trigger] whole_minute(u),
        no_match_between(c, b, x),
    ensures
        no_match_between(c, a, x),
{
    assert forall|u: int| a <= u < x && #[trigger] whole_minute(u) && in_range(u) implies !cron_matches(c, u as i64) by {
        if u < b {
            assert(!whole_minute(u));
        }
    }
}

/// The cron search from a whole minute `dt` (at or after the first
/// representable instant) below `limit` (at most the last one) finds the
/// first whole minute from `dt` on that matches, if one comes before
/// `limit`: the month, day and hour skips pass over no match.
pub proof fn lemma_cron_search_law(c: CronExpression, dt: int, limit: int)
    requires
        whole_minute(dt),
        MIN_TIMESTAMP_MS <= dt,
        limit <= MAX_TIMESTAMP_MS,
    ensures
        match cron_search(c, dt, limit) {
            Some(t) => dt <= t < limit && whole_minute(t as int) && cron_matches(c, t) && no_match_between(
                c,
                dt,
                t as int,
            ),
            None => no_match_between(c, dt, limit),
        },
    decreases limit - dt,
{
    if dt < limit {
        let t = dt as i64;
        let dd = DAY_MS as int;
        let hh = HOUR_MS as int;
        if !c.months@.contains(utc_month(t) as u8) {
            let d = utc_date(t);
            lemma_civil_date_valid(dt / dd);
            let k = days_in_month(d.0, d.1) - d.2 + 1;
            let s = dt - dt % dd + k * dd;
            lemma_window_end(dt, dd, k);
            assert forall|u: int| dt <= u < s && #[trigger] whole_minute(u) && in_range(u) implies !cron_matches(
                c,
                u as i64,
            ) by {
                lemma_floor_window(u, dt, dd, k);
                lemma_month_run(dt / dd, u / dd - dt / dd);
                assert(utc_date(u as i64).1 == d.1);
            }
            if s < limit {
                lemma_cron_search_law(c, s, limit);
            }
        } else if !c.days_of_month@.contains(utc_day(t) as u8) || !c.days_of_week@.contains(utc_weekday(t) as u8) {
            let s = dt - dt % dd + dd;
            lemma_window_end(dt, dd, 1);
            assert forall|u: int| dt <= u < s && #[trigger] whole_minute(u) && in_range(u) implies !cron_matches(
                c,
                u as i64,
            ) by {
                lemma_floor_window(u, dt, dd, 1);
            }
            if s < limit {
                lemma_cron_search_law(c, s, limit);
            }
        } else if !c.hours@.contains(utc_hour(t) as u8) {
            let s = dt - dt % hh + hh;
            lemma_window_end(dt, hh, 1);
            assert forall|u: int| dt <= u < s && #[trigger] whole_minute(u) && in_range(u) implies !cron_matches(
                c,
                u as i64,
            ) by {
                lemma_floor_window(u, dt, hh, 1);
            }
            if s < limit {
                lemma_cron_search_law(c, s, limit);
            }
        } else if !c.minutes@.contains(utc_minute(t) as u8) {
            let m = MINUTE_MS as int;
            assert forall|u: int| dt <= u < dt + m && #[trigger] whole_minute(u) && in_range(u) implies !cron_matches(
                c,
                u as i64,
            ) by {
                lemma_floor_window(u, dt, m, 1);
                vstd::arithmetic::div_mod::lemma_fundamental_div_mod(u, m);
                vstd::arithmetic::div_mod::lemma_fundamental_div_mod(dt, m);
            }
            vstd::arithmetic::div_mod::lemma_mod_add_multiples_vanish(dt, m);
            if dt + m < limit {
                lemma_cron_search_law(c, dt + m, limit);
            }
        }
    }
}


// ---------------------------------------------------------------------------
// Duration strings
// ---------------------------------------------------------------------------

/// The number of seconds that a lower-cased, trimmed duration string `t`
/// stands for: `N`, `Ns`, `Nm`, `Nh` or `Nd` (spaces allowed before the unit).
pub open spec fn duration_secs_spec(t: Seq<char>) -> Option<nat> {
    if has_suffix(t, seq!['s']) {
        parse_unsigned(trim(t.drop_last()), u64::MAX as nat)
    } else if has_suffix(t, seq!['m']) {
        match parse_unsigned(trim(t.drop_last()), u64::MAX as nat) {
            Some(n) => Some(n * 60),
            None => None,
        }
    } else if has_suffix(t, seq!['h']) {
        match parse_unsigned(trim(t.drop_last()), u64::MAX as nat) {
            Some(n) => Some(n * 3600),
            None => None,
        }
    } else if has_suffix(t, seq!['d']) {
        match parse_unsigned(trim(t.drop_last()), u64::MAX as nat) {
            Some(n) => Some(n * 86400),
            None => None,
        }
    } else {
        parse_unsigned(t, u64::MAX as nat)
    }
}

/// The duration string `t` does not ask for more seconds than a `u64` holds.
pub open spec fn duration_fits(t: Seq<char>) -> bool {
    match duration_secs_spec(t) {
        Some(v) => v <= u64::MAX,
        None => true,
    }
}

/// What [`parse_duration_str`] gives on `s`: the duration of the lower-cased,
/// trimmed text, or `None` when it does not parse or its seconds overflow.
pub open spec fn duration_str_spec(s: Seq<char>) -> Option<nat> {
    let t = lowercase(trim(s));
    match duration_secs_spec(t) {
        Some(v) => if v <= u64::MAX {
            Some(v)
        } else {
            None
        },
        None => None,
    }
}

/// A one-character suffix is the last character.
proof fn lemma_single_suffix(t: Seq<char>, c: char)
    requires
        t.len() > 0,
    ensures
        has_suffix(t, seq![c]) == (t.last() == c),
{
    let n = t.len() as int;
    assert(t.subrange(n - 1, n) =~= seq![t.last()]);
    if t.last() != c {
        assert(seq![t.last()][0] != seq![c][0]);
    }
}

/// The seconds of `t`, or `None` when `t` does not parse or overflows.
fn duration_secs_of(t: &[char]) -> (r: Option<u64>)
    ensures
        match duration_secs_spec(t@) {
            Some(v) => if v <= u64::MAX {
                r == Some(v as u64)
            } else {
                r.is_none()
            },
            None => r.is_none(),
        },
{
    let n = t.len();
    if n == 0 {
        return parse_u64(t);
    }
    let last = t[n - 1];
    let unit: u64 = if last == 's' {
        1
    } else if last == 'm' {
        60
    } else if last == 'h' {
        3600
    } else if last == 'd' {
        86400
    } else {
        0
    };
    proof {
        lemma_single_suffix(t@, 's');
    }
    proof {
        lemma_single_suffix(t@, 'm');
    }
    proof {
        lemma_single_suffix(t@, 'h');
    }
    proof {
        lemma_single_suffix(t@, 'd');
    }
    if unit == 0 {
        return parse_u64(t);
    }
    let body = slice_range(t, 0, n - 1);
    assert(body@ =~= t@.drop_last());
    let num = trim_chars(&body);
    match parse_u64(&num) {
        None => None,
        Some(k) => {
            if k > u64::MAX / unit {
                assert(k * unit > u64::MAX) by (nonlinear_arith)
                    requires k > u64::MAX / unit, unit > 0;
                None
            } else {
                assert(k * unit <= u64::MAX) by (nonlinear_arith)
                    requires k <= u64::MAX / unit, unit > 0;
                Some(k * unit)
            }
        },
    }
}

/// Parse an already lower-cased and trimmed duration string such as `30s`,
/// `5m`, `2h`, `1d` or `60` (seconds).
pub fn parse_duration_lowered(t: &[char]) -> (r: Option<Duration>)
    requires
        duration_fits(t@),
    ensures
        match duration_secs_spec(t@) {
            Some(v) => r == Some(Duration { secs: v as u64, nanos: 0 }),
            None => r.is_none(),
        },
{
    match duration_secs_of(t) {
        Some(v) => Some(Duration::from_secs(v)),
        None => None,
    }
}

/// Parse a duration string such as `30s`, `5m`, `2h`, `1d` or `60`, ignoring
/// surrounding whitespace and letter case. A number of seconds that does not
/// fit in a `u64` gives `None`.
pub fn parse_duration_str(s: &str) -> (r: Option<Duration>)
    ensures
        match duration_str_spec(s@) {
            Some(v) => r == Some(Duration { secs: v as u64, nanos: 0 }),
            None => r.is_none(),
        },
{
    let chars = chars_of(s);
    parse_duration_chars(&chars)
}

/// [`parse_duration_str`] on characters.
pub fn parse_duration_chars(s: &[char]) -> (r: Option<Duration>)
    ensures
        match duration_str_spec(s@) {
            Some(v) => r == Some(Duration { secs: v as u64, nanos: 0 }),
            None => r.is_none(),
        },
{
    let trimmed = trim_chars(s);
    let lowered = to_lowercase_chars(&trimmed);
    match duration_secs_of(&lowered) {
        Some(v) => Some(Duration::from_secs(v)),
        None => None,
    }
}

// ---------------------------------------------------------------------------
// Schedules
// ---------------------------------------------------------------------------

/// When a gorilla runs.
#[derive(Debug, Clone)]
pub enum Schedule {
    /// Cron-based schedule.
    Cron(CronExpression),
    /// Fixed interval between runs.
    Interval(Duration),
    /// A single run at the given instant (milliseconds since the epoch).
    OneShot(i64),
}

/// Policy for runs that were missed while the scheduler was not running.
#[derive(Debug, Clone, Copy, PartialEq, Eq, Structural)]
pub enum MissedRunPolicy {
    /// Run all missed executions on catch-up.
    CatchUp,
    /// Skip missed runs and schedule the next future run.
    Skip,
    /// Run once to catch up, then resume the normal schedule.
    RunOnce,
}

impl MissedRunPolicy {
    /// The default policy, `Skip`.
    pub fn default_policy() -> (p: MissedRunPolicy)
        ensures
            p == MissedRunPolicy::Skip,
    {
        MissedRunPolicy::Skip
    }
}

/// What a schedule string stands for.
pub enum ScheduleSpec {
    Cron(crate::cron::CronSets),
    Interval(nat),
}

/// The characters of a string literal.
pub open spec fn lit(s: Seq<char>) -> Seq<char> {
    s
}

/// The interval text after a `@every ` or `every ` prefix of `s`, if any.
pub open spec fn interval_text(s: Seq<char>) -> Option<Seq<char>> {
    if has_prefix(s, seq!['@', 'e', 'v', 'e', 'r', 'y', ' ']) {
        Some(s.skip(7))
    } else if has_prefix(s, seq!['e', 'v', 'e', 'r', 'y', ' ']) {
        Some(s.skip(6))
    } else {
        None
    }
}

/// What [`parse_schedule`] gives on `schedule`.
pub open spec fn schedule_spec(schedule: Seq<char>) -> Result<ScheduleSpec, ScheduleErrorView> {
    let s = trim(schedule);
    let low = lowercase(s);
    if low == seq!['@', 'h', 'o', 'u', 'r', 'l', 'y'] {
        Ok(ScheduleSpec::Interval(3600))
    } else if low == seq!['@', 'd', 'a', 'i', 'l', 'y'] {
        Ok(ScheduleSpec::Interval(86400))
    } else if low == seq!['@', 'w', 'e', 'e', 'k', 'l', 'y'] {
        Ok(ScheduleSpec::Interval(604800))
    } else if interval_text(s) matches Some(x) && duration_str_spec(trim(x)) is Some {
        Ok(ScheduleSpec::Interval(duration_str_spec(trim(interval_text(s)->0))->0))
    } else if words(s).len() == 5 {
        match cron_expr_spec(s) {
            Ok(c) => Ok(ScheduleSpec::Cron(c)),
            Err(e) => Err(e),
        }
    } else if duration_str_spec(s) is Some {
        Ok(ScheduleSpec::Interval(duration_str_spec(s)->0))
    } else {
        Err(ScheduleErrorView::Unparseable { schedule })
    }
}

/// The schedule `r` is what `spec` describes.
pub open spec fn schedule_is(r: Schedule, spec: ScheduleSpec) -> bool {
    match (r, spec) {
        (Schedule::Cron(c), ScheduleSpec::Cron(sets)) => expr_lists(c, sets),
        (Schedule::Interval(d), ScheduleSpec::Interval(secs)) => d.secs == secs && d.nanos == 0,
        _ => false,
    }
}

/// Whether `v` equals the text `lit`.
fn is_text(v: &[char], lit: &[char]) -> (b: bool)
    ensures
        b == (v@ == lit@),
{
    crate::text::chars_eq(v, lit)
}

/// Parse a schedule string: `@hourly`, `@daily`, `@weekly`, `@every 5m`,
/// `every 30s`, a five-field cron expression, or a bare interval like `10m`.
pub fn parse_schedule(schedule: &str) -> (r: Result<Schedule, ScheduleError>)
    ensures
        match r {
            Ok(sch) => schedule_spec(schedule@) matches Ok(sp) && schedule_is(sch, sp),
            Err(e) => schedule_spec(schedule@) == Err::<ScheduleSpec, ScheduleErrorView>(e@),
        },
{
    let all = chars_of(schedule);
    let s = trim_chars(&all);
    let low = to_lowercase_chars(&s);
    let hourly = ['@', 'h', 'o', 'u', 'r', 'l', 'y'];
    let daily = ['@', 'd', 'a', 'i', 'l', 'y'];
    let weekly = ['@', 'w', 'e', 'e', 'k', 'l', 'y'];
    assert(hourly@ =~= seq!['@', 'h', 'o', 'u', 'r', 'l', 'y']);
    assert(daily@ =~= seq!['@', 'd', 'a', 'i', 'l', 'y']);
    assert(weekly@ =~= seq!['@', 'w', 'e', 'e', 'k', 'l', 'y']);
    if is_text(&low, &hourly) {
        return Ok(Schedule::Interval(Duration::from_secs(3600)));
    }
    if is_text(&low, &daily) {
        return Ok(Schedule::Interval(Duration::from_secs(86400)));
    }
    if is_text(&low, &weekly) {
        return Ok(Schedule::Interval(Duration::from_secs(604800)));
    }
    let at_every = ['@', 'e', 'v', 'e', 'r', 'y', ' '];
    let every = ['e', 'v', 'e', 'r', 'y', ' '];
    assert(at_every@ =~= seq!['@', 'e', 'v', 'e', 'r', 'y', ' ']);
    assert(every@ =~= seq!['e', 'v', 'e', 'r', 'y', ' ']);
    let interval: Option<Vec<char>> = if starts_with(&s, &at_every) {
        let x = slice_range(&s, 7, s.len());
        assert(x@ =~= s@.skip(7));
        Some(x)
    } else if starts_with(&s, &every) {
        let x = slice_range(&s, 6, s.len());
        assert(x@ =~= s@.skip(6));
        Some(x)
    } else {
        None
    };
    assert(interval is Some ==> interval_text(s@) == Some(interval->0@));
    assert(interval is None ==> interval_text(s@) is None);
    match interval {
        Some(x) => {
            let xt = trim_chars(&x);
            match parse_duration_chars(&xt) {
                Some(d) => {
                    return Ok(Schedule::Interval(d));
                },
                None => {},
            }
        },
        None => {},
    }
    let fields = split_whitespace(&s);
    assert(fields@.map_values(|q: Vec<char>| q@).len() == fields@.len());
    if fields.len() == 5 {
        let cron = CronExpression::parse_chars(&s)?;
        return Ok(Schedule::Cron(cron));
    }
    match parse_duration_chars(&s) {
        Some(d) => Ok(Schedule::Interval(d)),
        None => Err(ScheduleError::Unparseable { schedule: crate::text::to_owned_string(schedule) }),
    }
}

} // verus!
