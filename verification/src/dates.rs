//! Calendar dates and wall-clock moments as plain values: day numbers on the
//! proleptic Gregorian calendar, the `YYYY-MM-DD` date format used for
//! last-dose tracking, and the `HH:MM:SS - YYYY/MM/DD` stamp format used for
//! dose history records.

use vstd::prelude::*;
use crate::text::{
    digit_char, digit_val, four_digits, is_digit, lemma_digit_char_val, push_four_digits,
    push_two_digits, two_digits,
};

verus! {

/// A calendar date on the proleptic Gregorian calendar, year 0 to 9999.
#[derive(Clone, Copy, PartialEq, Eq, Structural, Debug)]
pub struct CivilDate {
    pub year: u32,
    pub month: u32,
    pub day: u32,
}

/// A local wall-clock reading: a calendar date and a time of day.
#[derive(Clone, Copy, PartialEq, Eq, Structural, Debug)]
pub struct Moment {
    pub date: CivilDate,
    pub hour: u32,
    pub minute: u32,
    pub second: u32,
}

/// Gregorian leap-year rule.
pub open spec fn is_leap_year(y: int) -> bool {
    y % 4 == 0 && (y % 100 != 0 || y % 400 == 0)
}

/// Number of days in a month.
pub open spec fn days_in_month(y: int, m: int) -> int {
    if m == 2 {
        if is_leap_year(y) {
            29
        } else {
            28
        }
    } else if m == 4 || m == 6 || m == 9 || m == 11 {
        30
    } else {
        31
    }
}

impl CivilDate {
    /// A real calendar date within the supported year range.
    pub open spec fn wf(self) -> bool {
        self.year <= 9999 && 1 <= self.month <= 12 && 1 <= self.day <= days_in_month(
            self.year as int,
            self.month as int,
        )
    }
}

impl Moment {
    /// A real calendar date with a real time of day.
    pub open spec fn wf(self) -> bool {
        self.date.wf() && self.hour <= 23 && self.minute <= 59 && self.second <= 59
    }
}

/// The number of days from 1970-01-01 to the given date (negative for earlier
/// dates), counted on the proleptic Gregorian calendar. The year is shifted
/// by 400 (one full leap cycle of 146097 days, taken back off at the end) so
/// that every intermediate quantity stays non-negative.
pub open spec fn day_number(y: int, m: int, d: int) -> int {
    let yy = if m <= 2 {
        y + 399
    } else {
        y + 400
    };
    let era = yy / 400;
    let yoe = yy % 400;
    let mp = if m > 2 {
        m - 3
    } else {
        m + 9
    };
    let doy = (153 * mp + 2) / 5 + d - 1;
    let doe = yoe * 365 + yoe / 4 - yoe / 100 + doy;
    era * 146097 + doe - 719468 - 146097
}

/// Day-number computation matching `day_number`.
pub fn day_number_of(date: &CivilDate) -> (r: i64)
    requires
        date.wf(),
    ensures
        r == day_number(date.year as int, date.month as int, date.day as int),
        -719529 <= r <= 3000000,
{
    let y = date.year as u64;
    let m = date.month as u64;
    let d = date.day as u64;
    let yy: u64 = if m <= 2 {
        y + 399
    } else {
        y + 400
    };
    let era: u64 = yy / 400;
    let yoe: u64 = yy % 400;
    let mp: u64 = if m > 2 {
        m - 3
    } else {
        m + 9
    };
    let doy: u64 = (153 * mp + 2) / 5 + (d - 1);
    let doe: u64 = yoe * 365 + yoe / 4 - yoe / 100 + doy;
    assert(era <= 25);
    assert(doe <= 146200);
    (era * 146097 + doe) as i64 - 719468 - 146097
}

/// A date in the `YYYY-MM-DD` format used for `last_dose_date`: four year
/// digits, two month digits, two day digits, and a real calendar date.
pub open spec fn spec_parse_date(s: Seq<char>) -> Option<CivilDate> {
    if s.len() == 10 && is_digit(s[0]) && is_digit(s[1]) && is_digit(s[2]) && is_digit(s[3])
        && s[4] == '-' && is_digit(s[5]) && is_digit(s[6]) && s[7] == '-' && is_digit(s[8])
        && is_digit(s[9]) {
        let y = digit_val(s[0]) * 1000 + digit_val(s[1]) * 100 + digit_val(s[2]) * 10 + digit_val(
            s[3],
        );
        let m = digit_val(s[5]) * 10 + digit_val(s[6]);
        let d = digit_val(s[8]) * 10 + digit_val(s[9]);
        if 1 <= m <= 12 && 1 <= d <= days_in_month(y, m) {
            Some(CivilDate { year: y as u32, month: m as u32, day: d as u32 })
        } else {
            None
        }
    } else {
        None
    }
}

/// Every date the parser accepts is well formed.
pub proof fn lemma_parse_date_wf(s: Seq<char>)
    ensures
        spec_parse_date(s) matches Some(d) ==> d.wf(),
{
}

/// Date parsing matching `spec_parse_date`.
pub fn parse_date(s: &str) -> (r: Option<CivilDate>)
    ensures
        r == spec_parse_date(s@),
{
    let n = s.unicode_len();
    if n != 10 {
        return None;
    }
    let digit_at = |i: usize| -> (v: Option<u32>)
        requires
            i < s@.len(),
        ensures
            match v {
                Some(x) => is_digit(s@[i as int]) && x == digit_val(s@[i as int]),
                None => !is_digit(s@[i as int]),
            },
        {
            let u = s.get_char(i) as u32;
            if 48 <= u && u <= 57 {
                Some(u - 48)
            } else {
                None
            }
        };
    if s.get_char(4) != '-' || s.get_char(7) != '-' {
        return None;
    }
    let y = match (digit_at(0), digit_at(1), digit_at(2), digit_at(3)) {
        (Some(a), Some(b), Some(c), Some(d)) => a * 1000 + b * 100 + c * 10 + d,
        _ => {
            return None;
        },
    };
    let m = match (digit_at(5), digit_at(6)) {
        (Some(a), Some(b)) => a * 10 + b,
        _ => {
            return None;
        },
    };
    let d = match (digit_at(8), digit_at(9)) {
        (Some(a), Some(b)) => a * 10 + b,
        _ => {
            return None;
        },
    };
    if 1 <= m && m <= 12 && 1 <= d && d <= days_in_month_of(y, m) {
        Some(CivilDate { year: y, month: m, day: d })
    } else {
        None
    }
}

/// Month-length computation matching `days_in_month`.
pub fn days_in_month_of(y: u32, m: u32) -> (r: u32)
    ensures
        r == days_in_month(y as int, m as int),
{
    if m == 2 {
        if y % 4 == 0 && (y % 100 != 0 || y % 400 == 0) {
            29
        } else {
            28
        }
    } else if m == 4 || m == 6 || m == 9 || m == 11 {
        30
    } else {
        31
    }
}

/// The `YYYY-MM-DD` rendering of a date.
pub open spec fn spec_format_date(date: CivilDate) -> Seq<char> {
    four_digits(date.year as int) + seq!['-'] + two_digits(date.month as int) + seq!['-']
        + two_digits(date.day as int)
}

/// Date formatting matching `spec_format_date`.
pub fn format_date(date: &CivilDate) -> (r: String)
    requires
        date.wf(),
    ensures
        r@ == spec_format_date(*date),
{
    let mut out = String::new();
    push_four_digits(&mut out, date.year);
    out.append("-");
    push_two_digits(&mut out, date.month);
    out.append("-");
    push_two_digits(&mut out, date.day);
    proof {
        reveal_strlit("-");
        assert(out@ =~= spec_format_date(*date));
    }
    out
}

/// Splitting a number below 10000 into its four decimal digits loses nothing.
proof fn lemma_four_digit_split(y: int)
    requires
        0 <= y <= 9999,
    ensures
        (y / 1000) * 1000 + ((y / 100) % 10) * 100 + ((y / 10) % 10) * 10 + y % 10 == y,
        0 <= y / 1000 <= 9,
        0 <= (y / 100) % 10 <= 9,
        0 <= (y / 10) % 10 <= 9,
        0 <= y % 10 <= 9,
{
    assert((y / 1000) * 1000 + ((y / 100) % 10) * 100 + ((y / 10) % 10) * 10 + y % 10 == y)
        by (nonlinear_arith)
        requires
            0 <= y <= 9999,
    ;
    assert(0 <= (y / 100) % 10 <= 9) by (nonlinear_arith);
    assert(0 <= (y / 10) % 10 <= 9) by (nonlinear_arith);
    assert(0 <= y % 10 <= 9) by (nonlinear_arith);
}

/// Splitting a number below 100 into its two decimal digits loses nothing.
proof fn lemma_two_digit_split(n: int)
    requires
        0 <= n <= 99,
    ensures
        (n / 10) * 10 + n % 10 == n,
        0 <= n / 10 <= 9,
        0 <= n % 10 <= 9,
{
}

/// A formatted date parses back to the same date.
pub proof fn lemma_format_parse_date(date: CivilDate)
    requires
        date.wf(),
    ensures
        spec_parse_date(spec_format_date(date)) == Some(date),
{
    let s = spec_format_date(date);
    let y = date.year as int;
    let m = date.month as int;
    let d = date.day as int;
    lemma_four_digit_split(y);
    lemma_two_digit_split(m);
    lemma_two_digit_split(d);
    lemma_digit_char_val(y / 1000);
    lemma_digit_char_val((y / 100) % 10);
    lemma_digit_char_val((y / 10) % 10);
    lemma_digit_char_val(y % 10);
    lemma_digit_char_val(m / 10);
    lemma_digit_char_val(m % 10);
    lemma_digit_char_val(d / 10);
    lemma_digit_char_val(d % 10);
    assert(s.len() == 10);
    assert(s[0] == digit_char(y / 1000));
    assert(s[1] == digit_char((y / 100) % 10));
    assert(s[2] == digit_char((y / 10) % 10));
    assert(s[3] == digit_char(y % 10));
    assert(s[4] == '-');
    assert(s[5] == digit_char(m / 10));
    assert(s[6] == digit_char(m % 10));
    assert(s[7] == '-');
    assert(s[8] == digit_char(d / 10));
    assert(s[9] == digit_char(d % 10));
}

/// The `HH:MM:SS - YYYY/MM/DD` rendering of a wall-clock moment, used for
/// `taken_at` and for dose history records.
pub open spec fn spec_format_stamp(now: Moment) -> Seq<char> {
    two_digits(now.hour as int) + seq![':'] + two_digits(now.minute as int) + seq![':']
        + two_digits(now.second as int) + seq![' ', '-', ' '] + four_digits(now.date.year as int)
        + seq!['/'] + two_digits(now.date.month as int) + seq!['/'] + two_digits(
        now.date.day as int,
    )
}

/// Stamp formatting matching `spec_format_stamp`.
pub fn format_stamp(now: &Moment) -> (r: String)
    requires
        now.wf(),
    ensures
        r@ == spec_format_stamp(*now),
{
    let mut out = String::new();
    push_two_digits(&mut out, now.hour);
    out.append(":");
    push_two_digits(&mut out, now.minute);
    out.append(":");
    push_two_digits(&mut out, now.second);
    out.append(" - ");
    push_four_digits(&mut out, now.date.year);
    out.append("/");
    push_two_digits(&mut out, now.date.month);
    out.append("/");
    push_two_digits(&mut out, now.date.day);
    proof {
        reveal_strlit(":");
        reveal_strlit(" - ");
        reveal_strlit("/");
        assert(out@ =~= spec_format_stamp(*now));
    }
    out
}

/// A stamp in the `HH:MM:SS - YYYY/MM/DD` format: fixed-width fields with a
/// real calendar date and a real time of day.
pub open spec fn spec_parse_stamp(s: Seq<char>) -> Option<Moment> {
    if s.len() == 21 && is_digit(s[0]) && is_digit(s[1]) && s[2] == ':' && is_digit(s[3])
        && is_digit(s[4]) && s[5] == ':' && is_digit(s[6]) && is_digit(s[7]) && s[8] == ' '
        && s[9] == '-' && s[10] == ' ' && is_digit(s[11]) && is_digit(s[12]) && is_digit(s[13])
        && is_digit(s[14]) && s[15] == '/' && is_digit(s[16]) && is_digit(s[17]) && s[18] == '/'
        && is_digit(s[19]) && is_digit(s[20]) {
        let h = digit_val(s[0]) * 10 + digit_val(s[1]);
        let mi = digit_val(s[3]) * 10 + digit_val(s[4]);
        let sec = digit_val(s[6]) * 10 + digit_val(s[7]);
        let y = digit_val(s[11]) * 1000 + digit_val(s[12]) * 100 + digit_val(s[13]) * 10
            + digit_val(s[14]);
        let m = digit_val(s[16]) * 10 + digit_val(s[17]);
        let d = digit_val(s[19]) * 10 + digit_val(s[20]);
        if h <= 23 && mi <= 59 && sec <= 59 && 1 <= m <= 12 && 1 <= d <= days_in_month(y, m) {
            Some(
                Moment {
                    date: CivilDate { year: y as u32, month: m as u32, day: d as u32 },
                    hour: h as u32,
                    minute: mi as u32,
                    second: sec as u32,
                },
            )
        } else {
            None
        }
    } else {
        None
    }
}

/// Every moment the stamp parser accepts is well formed.
pub proof fn lemma_parse_stamp_wf(s: Seq<char>)
    ensures
        spec_parse_stamp(s) matches Some(m) ==> m.wf(),
{
}

/// Stamp parsing matching `spec_parse_stamp`.
pub fn parse_stamp(s: &str) -> (r: Option<Moment>)
    ensures
        r == spec_parse_stamp(s@),
{
    let n = s.unicode_len();
    if n != 21 {
        return None;
    }
    let digit_at = |i: usize| -> (v: Option<u32>)
        requires
            i < s@.len(),
        ensures
            match v {
                Some(x) => is_digit(s@[i as int]) && x == digit_val(s@[i as int]),
                None => !is_digit(s@[i as int]),
            },
        {
            let u = s.get_char(i) as u32;
            if 48 <= u && u <= 57 {
                Some(u - 48)
            } else {
                None
            }
        };
    if s.get_char(2) != ':' || s.get_char(5) != ':' || s.get_char(8) != ' ' || s.get_char(9) != '-'
        || s.get_char(10) != ' ' || s.get_char(15) != '/' || s.get_char(18) != '/' {
        return None;
    }
    let h = match (digit_at(0), digit_at(1)) {
        (Some(a), Some(b)) => a * 10 + b,
        _ => {
            return None;
        },
    };
    let mi = match (digit_at(3), digit_at(4)) {
        (Some(a), Some(b)) => a * 10 + b,
        _ => {
            return None;
        },
    };
    let sec = match (digit_at(6), digit_at(7)) {
        (Some(a), Some(b)) => a * 10 + b,
        _ => {
            return None;
        },
    };
    let y = match (digit_at(11), digit_at(12), digit_at(13), digit_at(14)) {
        (Some(a), Some(b), Some(c), Some(d)) => a * 1000 + b * 100 + c * 10 + d,
        _ => {
            return None;
        },
    };
    let m = match (digit_at(16), digit_at(17)) {
        (Some(a), Some(b)) => a * 10 + b,
        _ => {
            return None;
        },
    };
    let d = match (digit_at(19), digit_at(20)) {
        (Some(a), Some(b)) => a * 10 + b,
        _ => {
            return None;
        },
    };
    if h <= 23 && mi <= 59 && sec <= 59 && 1 <= m && m <= 12 && 1 <= d && d <= days_in_month_of(
        y,
        m,
    ) {
        Some(Moment { date: CivilDate { year: y, month: m, day: d }, hour: h, minute: mi, second: sec })
    } else {
        None
    }
}

/// A formatted stamp parses back to the same moment: every history record
/// this library writes can be read back by its own history filter.
pub proof fn lemma_format_parse_stamp(now: Moment)
    requires
        now.wf(),
    ensures
        spec_parse_stamp(spec_format_stamp(now)) == Some(now),
{
    let s = spec_format_stamp(now);
    let h = now.hour as int;
    let mi = now.minute as int;
    let sec = now.second as int;
    let y = now.date.year as int;
    let m = now.date.month as int;
    let d = now.date.day as int;
    lemma_four_digit_split(y);
    lemma_two_digit_split(h);
    lemma_two_digit_split(mi);
    lemma_two_digit_split(sec);
    lemma_two_digit_split(m);
    lemma_two_digit_split(d);
    lemma_digit_char_val(h / 10);
    lemma_digit_char_val(h % 10);
    lemma_digit_char_val(mi / 10);
    lemma_digit_char_val(mi % 10);
    lemma_digit_char_val(sec / 10);
    lemma_digit_char_val(sec % 10);
    lemma_digit_char_val(y / 1000);
    lemma_digit_char_val((y / 100) % 10);
    lemma_digit_char_val((y / 10) % 10);
    lemma_digit_char_val(y % 10);
    lemma_digit_char_val(m / 10);
    lemma_digit_char_val(m % 10);
    lemma_digit_char_val(d / 10);
    lemma_digit_char_val(d % 10);
    assert(s.len() == 21);
    assert(s[0] == digit_char(h / 10));
    assert(s[1] == digit_char(h % 10));
    assert(s[2] == ':');
    assert(s[3] == digit_char(mi / 10));
    assert(s[4] == digit_char(mi % 10));
    assert(s[5] == ':');
    assert(s[6] == digit_char(sec / 10));
    assert(s[7] == digit_char(sec % 10));
    assert(s[8] == ' ');
    assert(s[9] == '-');
    assert(s[10] == ' ');
    assert(s[11] == digit_char(y / 1000));
    assert(s[12] == digit_char((y / 100) % 10));
    assert(s[13] == digit_char((y / 10) % 10));
    assert(s[14] == digit_char(y % 10));
    assert(s[15] == '/');
    assert(s[16] == digit_char(m / 10));
    assert(s[17] == digit_char(m % 10));
    assert(s[18] == '/');
    assert(s[19] == digit_char(d / 10));
    assert(s[20] == digit_char(d % 10));
}

/// The moment as a second count from the day-number epoch; total order on
/// moments agrees with chronological order.
pub open spec fn moment_seconds(mo: Moment) -> int {
    day_number(mo.date.year as int, mo.date.month as int, mo.date.day as int) * 86400
        + mo.hour * 3600 + mo.minute * 60 + mo.second
}

/// Second-count computation matching `moment_seconds`.
pub fn moment_seconds_of(mo: &Moment) -> (r: i64)
    requires
        mo.wf(),
    ensures
        r == moment_seconds(*mo),
        -62173584000 <= r <= 259200086400,
{
    let dn = day_number_of(&mo.date);
    dn * 86400 + (mo.hour as i64) * 3600 + (mo.minute as i64) * 60 + (mo.second as i64)
}

} // verus!

