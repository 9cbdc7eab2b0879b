//! Time handling for the dispatcher.
//!
//! Database timestamps arrive as `YYYY-MM-DD HH:MM:SS[.fff]` strings in UTC.
//! This module parses them, converts civil date-times to epoch milliseconds,
//! and computes the Europe/Berlin calendar day of an instant, on which the
//! scheduler's same-day rule rests. Only the Europe/Berlin zone offset itself
//! comes from an outside table; everything around it is verified.

use vstd::prelude::*;
use vstd::arithmetic::div_mod::lemma_fundamental_div_mod;
use crate::text::{digit_val, is_digit};
use chrono::{Offset, TimeZone};

verus! {

/// Upper bound on the epoch seconds this module works with; every valid
/// civil date-time up to year 9999 converts to strictly less than this.
pub const MAX_EPOCH_SECS: i64 = 254000000000;

/// Upper bound on epoch milliseconds, `MAX_EPOCH_SECS` scaled.
pub const MAX_EPOCH_MILLIS: i64 = 254000000000000;

/// Seconds in a civil day.
pub const SECS_PER_DAY: i64 = 86400;

pub open spec fn is_leap_year(y: int) -> bool {
    (y % 4 == 0 && y % 100 != 0) || y % 400 == 0
}

pub open spec fn days_in_year(y: int) -> int {
    if is_leap_year(y) {
        366
    } else {
        365
    }
}

pub open spec fn days_in_month(y: int, m: int) -> int {
    if m == 2 {
        if is_leap_year(y) {
            29
        } else {
            28
        }
    } else if m == 4 || m == 6 || m == 9 || m == 11 {
        30
    } else {
        31
    }
}

/// Days from 1970-01-01 to the first day of year `y`.
pub open spec fn days_before_year(y: int) -> int
    decreases y - 1970,
{
    if y <= 1970 {
        0
    } else {
        days_before_year(y - 1) + days_in_year(y - 1)
    }
}

/// Days from the first of January of year `y` to the first day of month `m`.
pub open spec fn days_before_month(y: int, m: int) -> int
    decreases m,
{
    if m <= 1 {
        0
    } else {
        days_before_month(y, m - 1) + days_in_month(y, m - 1)
    }
}

/// Days from 1970-01-01 to the civil date `y-m-d`.
pub open spec fn day_number(y: int, m: int, d: int) -> int {
    days_before_year(y) + days_before_month(y, m) + (d - 1)
}

pub proof fn lemma_days_before_year_bounds(y: int)
    requires
        1970 <= y,
    ensures
        365 * (y - 1970) <= days_before_year(y) <= 366 * (y - 1970),
    decreases y - 1970,
{
    if y > 1970 {
        lemma_days_before_year_bounds(y - 1);
    }
}

pub proof fn lemma_days_before_month_bounds(y: int, m: int)
    requires
        1 <= m <= 13,
    ensures
        0 <= days_before_month(y, m) <= 31 * (m - 1),
    decreases m,
{
    if m > 1 {
        lemma_days_before_month_bounds(y, m - 1);
    }
}

/// A civil date-time with millisecond precision, interpreted in UTC.
#[derive(Clone, Copy, Debug, PartialEq, Eq, Structural)]
pub struct CivilDateTime {
    pub year: u32,
    pub month: u32,
    pub day: u32,
    pub hour: u32,
    pub minute: u32,
    pub second: u32,
    pub millisecond: u32,
}

impl CivilDateTime {
    /// A well-formed date-time in the domain of the processes table:
    /// the database stores timestamps from 1970 on, and four year digits
    /// bound the year by 9999.
    pub open spec fn valid(self) -> bool {
        &&& 1970 <= self.year <= 9999
        &&& 1 <= self.month <= 12
        &&& 1 <= self.day <= days_in_month(self.year as int, self.month as int)
        &&& self.hour < 24
        &&& self.minute < 60
        &&& self.second < 60
        &&& self.millisecond < 1000
    }

    /// Seconds since the Unix epoch of this date-time read as UTC.
    pub open spec fn spec_epoch_secs(self) -> int {
        day_number(self.year as int, self.month as int, self.day as int) * 86400
            + self.hour * 3600 + self.minute * 60 + self.second
    }

    /// Milliseconds since the Unix epoch of this date-time read as UTC.
    pub open spec fn spec_epoch_millis(self) -> int {
        self.spec_epoch_secs() * 1000 + self.millisecond
    }
}

pub fn is_leap_year_exec(y: u32) -> (r: bool)
    ensures
        r == is_leap_year(y as int),
{
    (y % 4 == 0 && y % 100 != 0) || y % 400 == 0
}

pub fn days_in_month_exec(y: u32, m: u32) -> (r: u32)
    ensures
        r as int == days_in_month(y as int, m as int),
        28 <= r <= 31,
{
    if m == 2 {
        if is_leap_year_exec(y) {
            29
        } else {
            28
        }
    } else if m == 4 || m == 6 || m == 9 || m == 11 {
        30
    } else {
        31
    }
}

/// Converts a valid civil date-time to milliseconds since the Unix epoch.
pub fn epoch_millis_of(dt: &CivilDateTime) -> (r: i64)
    requires
        dt.valid(),
    ensures
        r as int == dt.spec_epoch_millis(),
        0 <= r < MAX_EPOCH_MILLIS,
{
    let mut days: i64 = 0;
    let mut y: u32 = 1970;
    while y < dt.year
        invariant
            1970 <= y <= dt.year <= 9999,
            days as int == days_before_year(y as int),
            0 <= days as int <= 366 * (y - 1970),
        decreases dt.year - y,
    {
        proof {
            lemma_days_before_year_bounds(y as int + 1);
        }
        if is_leap_year_exec(y) {
            days = days + 366;
        } else {
            days = days + 365;
        }
        y = y + 1;
    }
    let mut m: u32 = 1;
    while m < dt.month
        invariant
            1 <= m <= dt.month <= 12,
            days as int == days_before_year(dt.year as int) + days_before_month(
                dt.year as int,
                m as int,
            ),
            0 <= days as int <= 366 * 8029 + 31 * (m - 1),
        decreases dt.month - m,
    {
        days = days + days_in_month_exec(dt.year, m) as i64;
        m = m + 1;
    }
    let day_num: i64 = days + (dt.day - 1) as i64;
    let secs: i64 = day_num * 86400 + (dt.hour as i64) * 3600 + (dt.minute as i64) * 60
        + dt.second as i64;
    proof {
        lemma_days_before_year_bounds(dt.year as int);
        lemma_days_before_month_bounds(dt.year as int, dt.month as int);
    }
    secs * 1000 + dt.millisecond as i64
}

// --- Parsing of database timestamp strings ---

pub open spec fn digit_positions_ok(s: Seq<char>) -> bool {
    &&& is_digit(s[0]) && is_digit(s[1]) && is_digit(s[2]) && is_digit(s[3])
    &&& is_digit(s[5]) && is_digit(s[6])
    &&& is_digit(s[8]) && is_digit(s[9])
    &&& is_digit(s[11]) && is_digit(s[12])
    &&& is_digit(s[14]) && is_digit(s[15])
    &&& is_digit(s[17]) && is_digit(s[18])
}

pub open spec fn sep_ok(s: Seq<char>) -> bool {
    s[4] == '-' && s[7] == '-' && s[10] == ' ' && s[13] == ':' && s[16] == ':'
}

pub open spec fn spec_year_of(s: Seq<char>) -> int {
    digit_val(s[0]) * 1000 + digit_val(s[1]) * 100 + digit_val(s[2]) * 10 + digit_val(s[3])
}

pub open spec fn spec_two_digits_of(s: Seq<char>, i: int) -> int {
    digit_val(s[i]) * 10 + digit_val(s[i + 1])
}

/// Millisecond value of the fractional digits of `s` that lie before
/// position `e`: the first three fractional digits weigh 100, 10 and 1;
/// digits beyond the third are below a millisecond and are dropped.
pub open spec fn spec_millis_upto(s: Seq<char>, e: int) -> int {
    (if e > 20 { digit_val(s[20]) * 100 } else { 0 })
    + (if e > 21 { digit_val(s[21]) * 10 } else { 0 })
    + (if e > 22 { digit_val(s[22]) } else { 0 })
}

pub open spec fn spec_millis_of(s: Seq<char>) -> int {
    if s.len() == 19 {
        0
    } else {
        spec_millis_upto(s, s.len() as int)
    }
}

/// The civil date-time that the characters of `s` denote.
pub open spec fn spec_civil_of(s: Seq<char>) -> CivilDateTime {
    CivilDateTime {
        year: spec_year_of(s) as u32,
        month: spec_two_digits_of(s, 5) as u32,
        day: spec_two_digits_of(s, 8) as u32,
        hour: spec_two_digits_of(s, 11) as u32,
        minute: spec_two_digits_of(s, 14) as u32,
        second: spec_two_digits_of(s, 17) as u32,
        millisecond: spec_millis_of(s) as u32,
    }
}

/// A well-formed database timestamp string: `YYYY-MM-DD HH:MM:SS` with an
/// optional dot and one to nine fractional digits, denoting a valid
/// date-time.
pub open spec fn valid_db_datetime(s: Seq<char>) -> bool {
    &&& (s.len() == 19 || 21 <= s.len() <= 29)
    &&& digit_positions_ok(s)
    &&& sep_ok(s)
    &&& (s.len() > 19 ==> s[19] == '.' && (forall|i: int|
        20 <= i < s.len() ==> is_digit(#[trigger] s[i])))
    &&& spec_civil_of(s).valid()
}

fn digit_at(s: &str, i: usize) -> (r: Option<u32>)
    requires
        i < s@.len(),
    ensures
        r is Some <==> is_digit(s@[i as int]),
        r matches Some(v) ==> v as int == digit_val(s@[i as int]) && v <= 9,
{
    let c = s.get_char(i);
    if '0' <= c && c <= '9' {
        Some(c as u32 - 48)
    } else {
        None
    }
}

fn two_digits_at(s: &str, i: usize) -> (r: Option<u32>)
    requires
        i + 1 < s@.len(),
        s@.len() <= usize::MAX,
    ensures
        r is Some <==> is_digit(s@[i as int]) && is_digit(s@[i as int + 1]),
        r matches Some(v) ==> v as int == spec_two_digits_of(s@, i as int) && v <= 99,
{
    let hi = digit_at(s, i);
    let lo = digit_at(s, i + 1);
    match (hi, lo) {
        (Some(h), Some(l)) => Some(h * 10 + l),
        _ => None,
    }
}

/// Checks whether a valid civil date-time's fields are in range.
pub fn civil_valid(dt: &CivilDateTime) -> (r: bool)
    ensures
        r == dt.valid(),
{
    1970 <= dt.year && dt.year <= 9999 && 1 <= dt.month && dt.month <= 12 && 1 <= dt.day
        && dt.day <= days_in_month_exec(dt.year, dt.month) && dt.hour < 24 && dt.minute < 60
        && dt.second < 60 && dt.millisecond < 1000
}

/// Parses a database timestamp string.
///
/// Returns `Some` exactly when the string is well formed and denotes a valid
/// date-time, and then returns that date-time.
pub fn parse_db_datetime(s: &str) -> (r: Option<CivilDateTime>)
    ensures
        r is Some <==> valid_db_datetime(s@),
        r matches Some(dt) ==> dt == spec_civil_of(s@) && dt.valid(),
{
    let n = s.unicode_len();
    if !(n == 19 || (21 <= n && n <= 29)) {
        return None;
    }
    let year = match two_digits_at(s, 0) {
        Some(hi) => match two_digits_at(s, 2) {
            Some(lo) => hi * 100 + lo,
            None => { return None; },
        },
        None => { return None; },
    };
    let month = match two_digits_at(s, 5) {
        Some(v) => v,
        None => { return None; },
    };
    let day = match two_digits_at(s, 8) {
        Some(v) => v,
        None => { return None; },
    };
    let hour = match two_digits_at(s, 11) {
        Some(v) => v,
        None => { return None; },
    };
    let minute = match two_digits_at(s, 14) {
        Some(v) => v,
        None => { return None; },
    };
    let second = match two_digits_at(s, 17) {
        Some(v) => v,
        None => { return None; },
    };
    if s.get_char(4) != '-' || s.get_char(7) != '-' || s.get_char(10) != ' ' || s.get_char(13)
        != ':' || s.get_char(16) != ':' {
        return None;
    }
    let mut millis: u32 = 0;
    if n > 19 {
        if s.get_char(19) != '.' {
            return None;
        }
        let mut i: usize = 20;
        while i < n
            invariant
                20 <= i <= n,
                n == s@.len(),
                n <= 29,
                forall|j: int| 20 <= j < i ==> is_digit(#[trigger] s@[j]),
                millis as int == spec_millis_upto(s@, i as int),
                millis < 1000,
            decreases n - i,
        {
            let d = match digit_at(s, i) {
                Some(d) => d,
                None => { return None; },
            };
            if i == 20 {
                millis = millis + d * 100;
            } else if i == 21 {
                millis = millis + d * 10;
            } else if i == 22 {
                millis = millis + d;
            }
            i = i + 1;
        }
    }
    let dt = CivilDateTime { year, month, day, hour, minute, second, millisecond: millis };
    if civil_valid(&dt) {
        proof {
            assert(year as int == spec_year_of(s@));
            assert(dt == spec_civil_of(s@));
        }
        Some(dt)
    } else {
        None
    }
}

// --- Europe/Berlin calendar days ---

/// Total offset of Europe/Berlin from UTC, in seconds, at a given instant.
/// The zone's transition table decides it; nothing here computes it.
pub uninterp spec fn berlin_offset(utc_secs: int) -> int;

/// Relies on chrono-tz's Europe/Berlin transition table, applied through
/// chrono's `TimeZone::offset_from_utc_datetime` and `Offset::fix`: the
/// offset is a pure function of the instant, and for every instant at or
/// after the Unix epoch the table holds only CET (+3600) and CEST (+7200).
#[verifier::external_body]
fn berlin_offset_seconds(utc_secs: i64) -> (r: i32)
    requires
        0 <= utc_secs <= MAX_EPOCH_SECS,
    ensures
        r as int == berlin_offset(utc_secs as int),
        r == 3600 || r == 7200,
{
    let dt = chrono::DateTime::from_timestamp(utc_secs, 0).expect("timestamp in range");
    chrono_tz::Europe::Berlin.offset_from_utc_datetime(&dt.naive_utc()).fix().local_minus_utc()
}

/// The Europe/Berlin calendar day (as a day count since the epoch of the
/// local calendar) that an instant falls on.
pub open spec fn spec_berlin_day_of_secs(t: int) -> int {
    (t + berlin_offset(t)) / 86400
}

pub open spec fn spec_berlin_day_of_millis(ms: int) -> int {
    spec_berlin_day_of_secs(ms / 1000)
}

pub fn berlin_day_of_millis(ms: i64) -> (day: i64)
    requires
        0 <= ms <= MAX_EPOCH_MILLIS,
    ensures
        day as int == spec_berlin_day_of_millis(ms as int),
{
    let msu = ms as u64;
    let secs = msu / 1000;
    let off = berlin_offset_seconds(secs as i64);
    let local = secs + off as u64;
    let day = local / 86400;
    day as i64
}

/// Whether two instants fall on the same Europe/Berlin calendar day.
pub open spec fn spec_same_berlin_day(ms1: int, ms2: int) -> bool {
    spec_berlin_day_of_millis(ms1) == spec_berlin_day_of_millis(ms2)
}

pub fn same_berlin_day_millis(a: i64, b: i64) -> (r: bool)
    requires
        0 <= a <= MAX_EPOCH_MILLIS,
        0 <= b <= MAX_EPOCH_MILLIS,
    ensures
        r == spec_same_berlin_day(a as int, b as int),
{
    berlin_day_of_millis(a) == berlin_day_of_millis(b)
}

/// An instant belongs to Berlin day `d` exactly when its Berlin local
/// seconds lie in the half-open day interval starting at `d * 86400`. In
/// particular an instant at exactly local midnight of day `d` counts as day
/// `d`, the day that begins there, not as the day that ends there.
pub proof fn lemma_berlin_day_characterization(t: int, d: int)
    requires
        t + berlin_offset(t) >= 0,
    ensures
        spec_berlin_day_of_secs(t) == d <==> d * 86400 <= t + berlin_offset(t) < (d + 1) * 86400,
{
    let local = t + berlin_offset(t);
    lemma_fundamental_div_mod(local, 86400);
    if spec_berlin_day_of_secs(t) == d {
        assert(local == 86400 * d + local % 86400);
    }
    if d * 86400 <= local < (d + 1) * 86400 {
        assert(local / 86400 == d) by (nonlinear_arith)
            requires
                d * 86400 <= local < (d + 1) * 86400,
                local == 86400 * (local / 86400) + local % 86400,
                0 <= local % 86400 < 86400;
    }
}

/// Midnight is the first instant of its day: if the Berlin local time of an
/// instant is exactly a day boundary, the instant's Berlin day is the day
/// that starts there.
pub proof fn lemma_midnight_starts_its_day(t: int)
    requires
        t + berlin_offset(t) >= 0,
        (t + berlin_offset(t)) % 86400 == 0,
    ensures
        spec_berlin_day_of_secs(t) * 86400 == t + berlin_offset(t),
{
    lemma_fundamental_div_mod(t + berlin_offset(t), 86400);
}

/// Conversions between database time representations, named as the
/// dispatcher uses them.
pub struct DispatchTimeFormatter;

impl DispatchTimeFormatter {
    /// Parses a database timestamp string that is known to be well formed;
    /// the checked entry point is `parse_db_datetime`.
    pub fn db_to_dt(db_datetime: &str) -> (r: CivilDateTime)
        requires
            valid_db_datetime(db_datetime@),
        ensures
            r == spec_civil_of(db_datetime@),
            r.valid(),
    {
        parse_db_datetime(db_datetime).unwrap()
    }

    /// Relies on chrono's `Utc::now` and `timestamp_millis`: the current
    /// wall-clock time in milliseconds since the Unix epoch. Nothing is
    /// assumed of the clock's reading; note that `Utc::now` itself aborts
    /// the process if the system clock reads before 1970.
    #[verifier::external_body]
    pub fn now_dt() -> i64 {
        chrono::Utc::now().timestamp_millis()
    }
}

} // verus!
