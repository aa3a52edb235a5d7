//! Timestamps: microseconds since the start of 1970 as a UTC date and time.

use crate::text::{decimal, digit_char, push_decimal};
use vstd::prelude::*;
use vstd::string::StringExecFns;

verus! {

/// Whether `year` has a 29th of February.
pub open spec fn is_leap_year(year: int) -> bool {
    year % 4 == 0 && (year % 100 != 0 || year % 400 == 0)
}

/// The number of days of `year`.
pub open spec fn days_in_year(year: int) -> int {
    if is_leap_year(year) {
        366
    } else {
        365
    }
}

/// The number of days of the month `month` (1 to 12) of `year`.
pub open spec fn days_in_month(year: int, month: int) -> int {
    if month == 2 {
        if is_leap_year(year) {
            29
        } else {
            28
        }
    } else if month == 4 || month == 6 || month == 9 || month == 11 {
        30
    } else {
        31
    }
}

/// The number of days from the start of 1970 to the start of `year`.
pub open spec fn days_before_year(year: int) -> int
    decreases year - 1970,
{
    if year <= 1970 {
        0
    } else {
        days_before_year(year - 1) + days_in_year(year - 1)
    }
}

/// The number of days from the start of `year` to the start of its month
/// `month`.
pub open spec fn days_before_month(year: int, month: int) -> int
    decreases month,
{
    if month <= 1 {
        0
    } else {
        days_before_month(year, month - 1) + days_in_month(year, month - 1)
    }
}

/// A date and a time of day in UTC.
#[derive(Clone, Copy, Debug, PartialEq, Eq, Structural)]
pub struct UtcTime {
    pub year: u64,
    pub month: u8,
    pub day: u8,
    pub hour: u8,
    pub minute: u8,
    pub second: u8,
}

impl UtcTime {
    /// The fields name a day of the calendar from 1970 on and a time of that
    /// day.
    pub open spec fn is_valid(self) -> bool {
        &&& self.year >= 1970
        &&& 1 <= self.month <= 12
        &&& 1 <= self.day <= days_in_month(self.year as int, self.month as int)
        &&& self.hour < 24
        &&& self.minute < 60
        &&& self.second < 60
    }

    /// The number of seconds from the start of 1970 to this time.
    pub open spec fn seconds(self) -> int {
        (days_before_year(self.year as int) + days_before_month(
            self.year as int,
            self.month as int,
        ) + (self.day - 1)) * 86_400 + self.hour * 3_600 + self.minute * 60 + self.second
    }

    /// The text form: year, month and day parted by hyphens, a space, then
    /// hour, minute and second parted by colons; all but the year in two
    /// digits.
    pub open spec fn text(self) -> Seq<char> {
        decimal(self.year as nat) + "-"@ + two_digits(self.month as nat) + "-"@ + two_digits(
            self.day as nat,
        ) + " "@ + two_digits(self.hour as nat) + ":"@ + two_digits(self.minute as nat) + ":"@
            + two_digits(self.second as nat)
    }

    /// The time that lies `micros` microseconds after the start of 1970;
    /// what is less than a second is dropped.
    pub fn from_micros(micros: u64) -> (time: UtcTime)
        ensures
            time.is_valid(),
            time.seconds() == micros / 1_000_000,
    {
        let seconds = micros / 1_000_000;
        let total_days = seconds / 86_400;
        let rest = seconds % 86_400;
        let mut days = total_days;
        let mut year: u64 = 1970;
        while days >= year_length(year)
            invariant
                1970 <= year,
                year - 1970 + days <= total_days <= u64::MAX / 86_400_000_000,
                days_before_year(year as int) + days == total_days,
            decreases days,
        {
            days = days - year_length(year);
            year = year + 1;
        }
        let ghost day_of_year = days;
        let mut month: u8 = 1;
        proof {
            reveal_with_fuel(days_before_month, 14);
            assert(days_before_month(year as int, 13) == days_in_year(year as int));
        }
        while days >= month_length(year, month)
            invariant
                1 <= month <= 12,
                days <= day_of_year < days_in_year(year as int),
                days_before_month(year as int, month as int) + days == day_of_year,
                days_before_month(year as int, 13) == days_in_year(year as int),
            decreases 12 - month,
        {
            proof {
                reveal_with_fuel(days_before_month, 14);
            }
            days = days - month_length(year, month);
            month = month + 1;
        }
        UtcTime {
            year,
            month,
            day: (days + 1) as u8,
            hour: (rest / 3_600) as u8,
            minute: (rest % 3_600 / 60) as u8,
            second: (rest % 60) as u8,
        }
    }

    /// The text form; see `UtcTime::text`.
    pub fn to_string(&self) -> (text: String)
        requires
            self.is_valid(),
        ensures
            text@ == self.text(),
    {
        let mut text = String::new();
        push_decimal(&mut text, self.year as u128);
        text.append("-");
        push_two_digits(&mut text, self.month);
        text.append("-");
        push_two_digits(&mut text, self.day);
        text.append(" ");
        push_two_digits(&mut text, self.hour);
        text.append(":");
        push_two_digits(&mut text, self.minute);
        text.append(":");
        push_two_digits(&mut text, self.second);
        assert(text@ =~= self.text());
        text
    }
}

/// The two decimal digits of `n`, which is below 100.
pub open spec fn two_digits(n: nat) -> Seq<char> {
    seq![digit_char(n / 10), digit_char(n % 10)]
}

/// Appends the two decimal digits of `n` to `out`.
fn push_two_digits(out: &mut String, n: u8)
    requires
        n < 100,
    ensures
        final(out)@ == old(out)@ + two_digits(n as nat),
{
    push_decimal(out, (n / 10) as u128);
    push_decimal(out, (n % 10) as u128);
    assert(out@ =~= old(out)@ + two_digits(n as nat));
}

/// The number of days of `year`.
fn year_length(year: u64) -> (days: u64)
    ensures
        days == days_in_year(year as int),
{
    if year % 4 == 0 && (year % 100 != 0 || year % 400 == 0) {
        366
    } else {
        365
    }
}

/// The number of days of the month `month` of `year`.
fn month_length(year: u64, month: u8) -> (days: u64)
    ensures
        days == days_in_month(year as int, month as int),
{
    if month == 2 {
        if year % 4 == 0 && (year % 100 != 0 || year % 400 == 0) {
            29
        } else {
            28
        }
    } else if month == 4 || month == 6 || month == 9 || month == 11 {
        30
    } else {
        31
    }
}

/// The time that lies `micros` microseconds after the start of 1970, to the
/// second: the one valid time with that number of seconds.
pub open spec fn utc_time(micros: u64) -> UtcTime {
    choose|time: UtcTime| time.is_valid() && time.seconds() == micros / 1_000_000
}

/// The text of the time that lies `micros` microseconds after the start of
/// 1970.
pub fn utc_text(micros: u64) -> (text: String)
    ensures
        text@ == utc_time(micros).text(),
        utc_time(micros).is_valid(),
        utc_time(micros).seconds() == micros / 1_000_000,
{
    let time = UtcTime::from_micros(micros);
    proof {
        lemma_utc_time_unique(time, utc_time(micros));
    }
    time.to_string()
}

/// Later years start later.
pub proof fn lemma_days_before_year_monotonic(a: int, b: int)
    requires
        1970 <= a < b,
    ensures
        days_before_year(a) + days_in_year(a) <= days_before_year(b),
    decreases b,
{
    if a + 1 < b {
        lemma_days_before_year_monotonic(a, b - 1);
    }
}

/// Later months start later, and the last one ends with the year.
pub proof fn lemma_days_before_month_monotonic(year: int, a: int, b: int)
    requires
        1 <= a < b <= 13,
    ensures
        0 <= days_before_month(year, a),
        days_before_month(year, a) + days_in_month(year, a) <= days_before_month(year, b),
        days_before_month(year, 13) == days_in_year(year),
{
    reveal_with_fuel(days_before_month, 14);
}

/// Two valid times with the same number of seconds are the same time.
pub proof fn lemma_utc_time_unique(a: UtcTime, b: UtcTime)
    requires
        a.is_valid(),
        b.is_valid(),
        a.seconds() == b.seconds(),
    ensures
        a == b,
{
    let day_a = days_before_year(a.year as int) + days_before_month(a.year as int, a.month as int)
        + (a.day - 1);
    let day_b = days_before_year(b.year as int) + days_before_month(b.year as int, b.month as int)
        + (b.day - 1);
    let time_a = a.hour * 3_600 + a.minute * 60 + a.second;
    let time_b = b.hour * 3_600 + b.minute * 60 + b.second;
    assert(0 <= time_a < 86_400 && 0 <= time_b < 86_400);
    assert(day_a == day_b && time_a == time_b);
    assert(a.hour == b.hour && a.minute == b.minute && a.second == b.second);
    lemma_days_before_month_monotonic(a.year as int, a.month as int, 13);
    lemma_days_before_month_monotonic(b.year as int, b.month as int, 13);
    if a.year < b.year {
        lemma_days_before_year_monotonic(a.year as int, b.year as int);
    } else if b.year < a.year {
        lemma_days_before_year_monotonic(b.year as int, a.year as int);
    }
    assert(a.year == b.year);
    if a.month < b.month {
        lemma_days_before_month_monotonic(a.year as int, a.month as int, b.month as int);
    } else if b.month < a.month {
        lemma_days_before_month_monotonic(a.year as int, b.month as int, a.month as int);
    }
}

} // verus!
