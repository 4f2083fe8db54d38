use crate::endpoint::{decimal_of, decimal_text, digit_char};
use vstd::prelude::*;
use vstd::string::StringExecFns;

verus! {

/// A moment in UTC, by the calendar, to the second.
#[derive(Clone, Copy, Debug, PartialEq, Eq, Structural)]
pub struct CivilTime {
    pub year: u64,
    pub month: u8,
    pub day: u8,
    pub hour: u8,
    pub minute: u8,
    pub second: u8,
}

/// Whether `year` has a 29 February.
pub open spec fn is_leap(year: int) -> bool {
    year % 4 == 0 && (year % 100 != 0 || year % 400 == 0)
}

/// The number of days of `year`.
pub open spec fn days_in_year(year: int) -> int {
    if is_leap(year) {
        366
    } else {
        365
    }
}

/// The number of days of month `month` of `year`.
pub open spec fn days_in_month(year: int, month: int) -> int {
    if month == 2 {
        if is_leap(year) {
            29
        } else {
            28
        }
    } else if month == 4 || month == 6 || month == 9 || month == 11 {
        30
    } else {
        31
    }
}

/// The number of leap years among the years 1 to `year - 1`.
pub open spec fn leap_years_before(year: int) -> int {
    (year - 1) / 4 - (year - 1) / 100 + (year - 1) / 400
}

/// The number of days from 1 January 1970 to 1 January of `year`.
pub open spec fn days_before_year(year: int) -> int {
    365 * (year - 1970) + leap_years_before(year) - leap_years_before(1970)
}

/// The number of days of `year` that lie before its month `month`.
pub open spec fn days_before_month(year: int, month: int) -> int {
    let leap: int = if is_leap(year) && month > 2 {
        1
    } else {
        0
    };
    leap + if month <= 1 {
        0int
    } else if month == 2 {
        31
    } else if month == 3 {
        59
    } else if month == 4 {
        90
    } else if month == 5 {
        120
    } else if month == 6 {
        151
    } else if month == 7 {
        181
    } else if month == 8 {
        212
    } else if month == 9 {
        243
    } else if month == 10 {
        273
    } else if month == 11 {
        304
    } else if month == 12 {
        334
    } else {
        365
    }
}

impl CivilTime {
    /// The fields name a moment that exists, in 1970 or later.
    pub open spec fn valid(self) -> bool {
        &&& self.year >= 1970
        &&& 1 <= self.month <= 12
        &&& 1 <= self.day <= days_in_month(self.year as int, self.month as int)
        &&& self.hour < 24
        &&& self.minute < 60
        &&& self.second < 60
    }

    /// The number of days from 1 January 1970 to the day of this moment.
    pub open spec fn day_number(self) -> int {
        days_before_year(self.year as int) + days_before_month(
            self.year as int,
            self.month as int,
        ) + (self.day - 1)
    }

    /// The number of seconds from the start of 1970 to this moment.
    pub open spec fn unix_seconds(self) -> int {
        self.day_number() * 86400 + self.hour * 3600 + self.minute * 60 + self.second
    }
}

/// A number in decimal, with a zero in front where it has one digit only.
pub open spec fn two_digits(n: nat) -> Seq<char> {
    if n < 10 {
        seq!['0', digit_char(n)]
    } else {
        decimal_of(n)
    }
}

/// A moment in the form `YYYY-MM-DDTHH:MM:SSZ`.
pub open spec fn timestamp_text(t: CivilTime) -> Seq<char> {
    decimal_of(t.year as nat) + seq!['-'] + two_digits(t.month as nat) + seq!['-'] + two_digits(
        t.day as nat,
    ) + seq!['T'] + two_digits(t.hour as nat) + seq![':'] + two_digits(t.minute as nat) + seq![
        ':',
    ] + two_digits(t.second as nat) + seq!['Z']
}

fn leap_year(year: u64) -> (out: bool)
    ensures
        out == is_leap(year as int),
{
    year % 4 == 0 && (year % 100 != 0 || year % 400 == 0)
}

fn month_length(year: u64, month: u8) -> (out: u64)
    ensures
        out == days_in_month(year as int, month as int),
{
    if month == 2 {
        if leap_year(year) {
            29
        } else {
            28
        }
    } else if month == 4 || month == 6 || month == 9 || month == 11 {
        30
    } else {
        31
    }
}

/// A year later the count of days has grown by the length of the year.
proof fn lemma_next_year(year: int)
    requires
        year >= 1,
    ensures
        days_before_year(year + 1) == days_before_year(year) + days_in_year(year),
{
}

/// Four hundred years hold 146097 days.
proof fn lemma_cycles(cycles: int)
    requires
        cycles >= 0,
    ensures
        days_before_year(1970 + 400 * cycles) == 146097 * cycles,
{
}

/// The moment that lies `seconds` after the start of 1970.
pub fn civil_from_unix(seconds: u64) -> (out: CivilTime)
    ensures
        out.valid(),
        out.unix_seconds() == seconds,
        out == civil_of(seconds as nat),
{
    let days: u64 = seconds / 86400;
    let rest: u64 = seconds % 86400;
    let cycles: u64 = days / 146097;
    let mut left: u64 = days % 146097;
    let mut year: u64 = 1970 + 400 * cycles;
    proof {
        lemma_cycles(cycles as int);
    }
    loop
        invariant
            1970 <= year <= 1970 + 400 * cycles + (146097 - left),
            left < 146097,
            cycles <= 0xffff_ffff_ffff,
            days == days_before_year(year as int) + left,
        ensures
            left < days_in_year(year as int),
        decreases left,
    {
        let len: u64 = if leap_year(year) {
            366
        } else {
            365
        };
        if left < len {
            break ;
        }
        proof {
            lemma_next_year(year as int);
        }
        left -= len;
        year += 1;
    }
    let mut month: u8 = 1;
    loop
        invariant
            1 <= month <= 12,
            year >= 1970,
            left < 146097,
            days == days_before_year(year as int) + days_before_month(year as int, month as int)
                + left,
            days_before_month(year as int, month as int) + left < days_in_year(year as int),
        ensures
            left < days_in_month(year as int, month as int),
        decreases 12 - month,
    {
        let len = month_length(year, month);
        if left < len {
            break ;
        }
        left -= len;
        month += 1;
    }
    let out = CivilTime {
        year,
        month,
        day: (left + 1) as u8,
        hour: (rest / 3600) as u8,
        minute: (rest % 3600 / 60) as u8,
        second: (rest % 60) as u8,
    };
    proof {
        assert(out.valid() && out.unix_seconds() == seconds);
        lemma_unix_seconds_injective(out, civil_of(seconds as nat));
    }
    out
}

fn push_two_digits(out: &mut String, n: u8)
    ensures
        final(out)@ == old(out)@ + two_digits(n as nat),
{
    if n < 10 {
        out.push('0');
    }
    let digits = decimal_text(n as u64);
    out.append(digits.as_str());
    assert(final(out)@ =~= old(out)@ + two_digits(n as nat));
}

/// Writes a moment in the one form that both the digest and the payload
/// carry.
pub fn format_timestamp(t: &CivilTime) -> (out: String)
    ensures
        out@ == timestamp_text(*t),
{
    let mut out = decimal_text(t.year);
    out.push('-');
    push_two_digits(&mut out, t.month);
    out.push('-');
    push_two_digits(&mut out, t.day);
    out.push('T');
    push_two_digits(&mut out, t.hour);
    out.push(':');
    push_two_digits(&mut out, t.minute);
    out.push(':');
    push_two_digits(&mut out, t.second);
    out.push('Z');
    assert(out@ =~= timestamp_text(*t));
    out
}

/// Every year adds at least 365 days.
proof fn lemma_years_grow(from: int, to: int)
    requires
        1 <= from <= to,
    ensures
        days_before_year(to) >= days_before_year(from) + 365 * (to - from),
    decreases to - from,
{
    if from < to {
        lemma_years_grow(from, to - 1);
        lemma_next_year(to - 1);
    }
}

/// A later day of the calendar has a greater number.
proof fn lemma_day_number_grows(a: CivilTime, b: CivilTime)
    requires
        a.valid(),
        b.valid(),
        a.year < b.year || (a.year == b.year && (a.month < b.month || (a.month == b.month && a.day
            < b.day))),
    ensures
        a.day_number() < b.day_number(),
{
    if a.year < b.year {
        lemma_next_year(a.year as int);
        lemma_years_grow(a.year + 1, b.year as int);
    }
}

/// No two moments of the calendar lie the same number of seconds after the
/// start of 1970: the moment that `civil_from_unix` returns is the only one
/// for its argument.
pub proof fn lemma_unix_seconds_injective(a: CivilTime, b: CivilTime)
    requires
        a.valid(),
        b.valid(),
        a.unix_seconds() == b.unix_seconds(),
    ensures
        a == b,
{
    if a.year != b.year || a.month != b.month || a.day != b.day {
        if a.year < b.year || (a.year == b.year && (a.month < b.month || (a.month == b.month
            && a.day < b.day))) {
            lemma_day_number_grows(a, b);
        } else {
            lemma_day_number_grows(b, a);
        }
    }
}

/// The moment of the calendar that lies `seconds` after the start of 1970.
pub open spec fn civil_of(seconds: nat) -> CivilTime {
    choose|t: CivilTime| t.valid() && t.unix_seconds() == seconds
}

/// The moment `seconds` after the start of 1970, in the form
/// `YYYY-MM-DDTHH:MM:SSZ`.
pub fn timestamp_at(seconds: u64) -> (out: String)
    ensures
        out@ == timestamp_text(civil_of(seconds as nat)),
{
    let t = civil_from_unix(seconds);
    format_timestamp(&t)
}

} // verus!
