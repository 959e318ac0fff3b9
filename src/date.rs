use vstd::prelude::*;

use crate::commands::decimal;

verus! {

/// The earliest and latest years that `chrono` can represent.
pub const MIN_YEAR: i32 = -262143;

pub const MAX_YEAR: i32 = 262142;

/// A calendar date in the proleptic Gregorian calendar, with no time of day.
#[derive(Clone, Copy, Debug, PartialEq, Eq, Structural)]
pub struct Date {
    pub year: i32,
    pub month: u32,
    pub day: u32,
}

pub open spec fn is_leap_year(y: int) -> bool {
    (y % 4 == 0 && y % 100 != 0) || y % 400 == 0
}

pub open spec fn days_in_month(y: int, m: int) -> int {
    if m == 2 {
        if is_leap_year(y) {
            29
        } else {
            28
        }
    } else if m == 4 || m == 6 || m == 9 || m == 11 {
        30
    } else {
        31
    }
}

/// The character of a decimal digit.
pub open spec fn digit(n: int) -> char {
    ((n % 10) + 48) as char
}

/// `n` written with two digits.
pub open spec fn two_digits(n: int) -> Seq<char> {
    seq![digit(n / 10), digit(n)]
}

/// `n` written with four digits.
pub open spec fn four_digits(n: int) -> Seq<char> {
    seq![digit(n / 1000), digit(n / 100), digit(n / 10), digit(n)]
}

/// A year as `chrono`'s `%Y` writes it: four digits from 0 to 9999, and
/// otherwise a sign followed by at least four digits.
pub open spec fn year_text(y: int) -> Seq<char> {
    if 0 <= y <= 9999 {
        four_digits(y)
    } else {
        let size = if y < 0 {
            -y
        } else {
            y
        };
        seq![
            if y < 0 {
                '-'
            } else {
                '+'
            },
        ] + if size <= 9999 {
            four_digits(size)
        } else {
            decimal(size as nat)
        }
    }
}

impl Date {
    /// The date exists and lies in the range that `chrono` represents.
    pub open spec fn valid(&self) -> bool {
        &&& MIN_YEAR <= self.year <= MAX_YEAR
        &&& 1 <= self.month <= 12
        &&& 1 <= self.day <= days_in_month(self.year as int, self.month as int)
    }

    /// The date as day, month and year: `DD/MM/YYYY`.
    pub open spec fn text(&self) -> Seq<char> {
        two_digits(self.day as int) + seq!['/'] + two_digits(self.month as int) + seq!['/']
            + year_text(self.year as int)
    }

    /// Whether the date exists and lies in the range that `chrono` represents.
    pub fn is_valid(&self) -> (r: bool)
        ensures
            r == self.valid(),
    {
        if self.year < MIN_YEAR || self.year > MAX_YEAR || self.month < 1 || self.month > 12
            || self.day < 1 {
            return false;
        }
        let y = self.year;
        let leap = (y % 4 == 0 && y % 100 != 0) || y % 400 == 0;
        let days: u32 = if self.month == 2 {
            if leap {
                29
            } else {
                28
            }
        } else if self.month == 4 || self.month == 6 || self.month == 9 || self.month == 11 {
            30
        } else {
            31
        };
        self.day <= days
    }

    /// The date written as `DD/MM/YYYY`, as `chrono` formats it.
    pub fn format(&self) -> (r: String)
        requires
            self.valid(),
        ensures
            r@ == self.text(),
    {
        format_dmy(self.year, self.month, self.day)
    }
}

/// Relies on `chrono::NaiveDate::from_ymd_opt`, which accepts every valid
/// date in its range, and on the `%d/%m/%Y` format, which writes the day and
/// the month with two digits and the year zero-padded to four digits, with a
/// sign before years outside 0 to 9999.
#[verifier::external_body]
fn format_dmy(year: i32, month: u32, day: u32) -> (r: String)
    requires
        (Date { year, month, day }).valid(),
    ensures
        r@ == (Date { year, month, day }).text(),
{
    let date = chrono::NaiveDate::from_ymd_opt(year, month, day).unwrap();
    date.format("%d/%m/%Y").to_string()
}

} // verus!
