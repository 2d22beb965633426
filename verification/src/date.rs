//! Calendar dates as plain year, month and day values, with strict
//! `YYYY/MM/DD` parsing and `YYYY-MM-DD` rendering.

use crate::num::{digit_char, digit_val, digit_to_char, is_digit};
use crate::text::{push_char, to_chars};
use vstd::prelude::*;

verus! {

/// A calendar date held as plain numbers. Valid values satisfy
/// [`Date::wf`]; every `Date` the library constructs is valid.
#[derive(Clone, Copy, Debug, PartialEq, Eq, Structural)]
pub struct Date {
    pub year: u32,
    pub month: u32,
    pub day: u32,
}

/// Whether `y` is a leap year in the proleptic Gregorian calendar.
pub open spec fn is_leap_year(y: int) -> bool {
    y % 4 == 0 && (y % 100 != 0 || y % 400 == 0)
}

/// The number of days in month `m` of year `y`.
pub open spec fn days_in_month(y: int, m: int) -> int {
    if m == 2 {
        if is_leap_year(y) { 29 } else { 28 }
    } else if m == 4 || m == 6 || m == 9 || m == 11 {
        30
    } else {
        31
    }
}

impl Date {
    /// Validity: a four-digit year and a real calendar day.
    pub open spec fn wf(self) -> bool {
        &&& self.year <= 9999
        &&& 1 <= self.month <= 12
        &&& 1 <= self.day <= days_in_month(self.year as int, self.month as int)
    }

    /// A single number that orders dates chronologically.
    pub open spec fn key(self) -> int {
        self.year * 10000 + self.month * 100 + self.day
    }

    /// The first day of this date's month: the grouping key for
    /// month-bucketed reports.
    pub open spec fn spec_month_start(self) -> Date {
        Date { year: self.year, month: self.month, day: 1 }
    }

    /// The first day of this date's month.
    pub fn month_start(self) -> (r: Date)
        requires
            self.wf(),
        ensures
            r == self.spec_month_start(),
            r.wf(),
    {
        Date { year: self.year, month: self.month, day: 1 }
    }

    /// Whether `self` is strictly before `other` in time.
    pub fn lt(self, other: Date) -> (r: bool)
        requires
            self.wf(),
            other.wf(),
        ensures
            r == (self.key() < other.key()),
    {
        let a = self.year * 10000 + self.month * 100 + self.day;
        let b = other.year * 10000 + other.month * 100 + other.day;
        a < b
    }

    /// Whether two dates are the same day.
    pub fn same(self, other: Date) -> (r: bool)
        ensures
            r == (self == other),
    {
        self.year == other.year && self.month == other.month && self.day == other.day
    }
}

/// The ten-character rendering `YYYY-MM-DD` of a date, zero-padded.
pub open spec fn spec_date_string(d: Date) -> Seq<char> {
    seq![
        digit_char(d.year as int / 1000),
        digit_char(d.year as int / 100 % 10),
        digit_char(d.year as int / 10 % 10),
        digit_char(d.year as int % 10),
        '-',
        digit_char(d.month as int / 10),
        digit_char(d.month as int % 10),
        '-',
        digit_char(d.day as int / 10),
        digit_char(d.day as int % 10),
    ]
}

/// Renders a date as `YYYY-MM-DD`.
pub fn date_to_string(d: Date) -> (r: String)
    requires
        d.wf(),
    ensures
        r@ == spec_date_string(d),
{
    let mut r = String::new();
    push_char(&mut r, digit_to_char((d.year / 1000) as u128));
    push_char(&mut r, digit_to_char((d.year / 100 % 10) as u128));
    push_char(&mut r, digit_to_char((d.year / 10 % 10) as u128));
    push_char(&mut r, digit_to_char((d.year % 10) as u128));
    push_char(&mut r, '-');
    push_char(&mut r, digit_to_char((d.month / 10) as u128));
    push_char(&mut r, digit_to_char((d.month % 10) as u128));
    push_char(&mut r, '-');
    push_char(&mut r, digit_to_char((d.day / 10) as u128));
    push_char(&mut r, digit_to_char((d.day % 10) as u128));
    proof {
        assert(r@ =~= spec_date_string(d));
    }
    r
}

/// What strict date parsing yields on `s`: exactly ten characters shaped
/// `YYYY/MM/DD`, all digits in the date positions, naming a real calendar
/// day.
pub open spec fn spec_parse_date(s: Seq<char>) -> Option<Date> {
    if s.len() == 10 && is_digit(s[0]) && is_digit(s[1]) && is_digit(s[2]) && is_digit(s[3])
        && s[4] == '/' && is_digit(s[5]) && is_digit(s[6]) && s[7] == '/' && is_digit(s[8])
        && is_digit(s[9]) {
        let y = digit_val(s[0]) * 1000 + digit_val(s[1]) * 100 + digit_val(s[2]) * 10
            + digit_val(s[3]);
        let m = digit_val(s[5]) * 10 + digit_val(s[6]);
        let d = digit_val(s[8]) * 10 + digit_val(s[9]);
        let date = Date { year: y as u32, month: m as u32, day: d as u32 };
        if date.wf() {
            Some(date)
        } else {
            None
        }
    } else {
        None
    }
}

/// Parses a strict `YYYY/MM/DD` date.
pub fn parse_date_str(s: &str) -> (r: Option<Date>)
    ensures
        r == spec_parse_date(s@),
        r matches Some(d) ==> d.wf(),
{
    let cs = to_chars(s);
    if cs.len() != 10 {
        return None;
    }
    let mut i: usize = 0;
    while i < 10
        invariant
            cs@ == s@,
            cs@.len() == 10,
            i <= 10,
            forall|k: int|
                0 <= k < i ==> (if k == 4 || k == 7 {
                    s@[k] == '/'
                } else {
                    is_digit(#[trigger] s@[k])
                }),
        decreases 10 - i,
    {
        let c = cs[i];
        if i == 4 || i == 7 {
            if c != '/' {
                return None;
            }
        } else {
            if !('0' <= c && c <= '9') {
                return None;
            }
        }
        i = i + 1;
    }
    let y = digit_value(cs[0]) * 1000 + digit_value(cs[1]) * 100 + digit_value(cs[2]) * 10
        + digit_value(cs[3]);
    let m = digit_value(cs[5]) * 10 + digit_value(cs[6]);
    let d = digit_value(cs[8]) * 10 + digit_value(cs[9]);
    let date = Date { year: y, month: m, day: d };
    if m < 1 || m > 12 {
        return None;
    }
    let dim = days_in_month_exec(y, m);
    if d < 1 || d > dim {
        return None;
    }
    Some(date)
}

/// The numeric value of a digit character, as an executable step.
fn digit_value(c: char) -> (v: u32)
    requires
        is_digit(c),
    ensures
        v == digit_val(c),
        v <= 9,
{
    (c as u32) - 48
}

/// The number of days in month `m` of year `y`.
pub fn days_in_month_exec(y: u32, m: u32) -> (r: u32)
    ensures
        r == days_in_month(y as int, m as int),
{
    if m == 2 {
        if y % 4 == 0 && (y % 100 != 0 || y % 400 == 0) {
            29
        } else {
            28
        }
    } else if m == 4 || m == 6 || m == 9 || m == 11 {
        30
    } else {
        31
    }
}

} // verus!
