//! Calendar dates and their ISO 8601 text.

use vstd::arithmetic::div_mod::lemma_mod_multiples_vanish;
use vstd::prelude::*;

verus! {

/// The first year that a date can have.
pub const MIN_YEAR: i32 = -262143;

/// The last year that a date can have.
pub const MAX_YEAR: i32 = 262142;

/// A year, a month and a day, as mathematical integers.
pub struct Ymd {
    pub year: int,
    pub month: int,
    pub day: int,
}

/// The leap years of the proleptic Gregorian calendar.
pub open spec fn is_leap_year(year: int) -> bool {
    year % 4 == 0 && (year % 100 != 0 || year % 400 == 0)
}

/// The number of days of a month.
pub open spec fn days_in_month(year: int, month: int) -> int {
    if month == 2 {
        if is_leap_year(year) {
            29
        } else {
            28
        }
    } else if month == 4 || month == 6 || month == 9 || month == 11 {
        30
    } else {
        31
    }
}

/// There is such a day in the calendar, and its year is in range.
pub open spec fn is_date(ymd: Ymd) -> bool {
    &&& MIN_YEAR <= ymd.year <= MAX_YEAR
    &&& 1 <= ymd.month <= 12
    &&& 1 <= ymd.day <= days_in_month(ymd.year, ymd.month)
}

/// The character of a decimal digit.
pub open spec fn digit(n: int) -> char {
    ((48 + n) as u8) as char
}

/// A natural number in decimal, without leading zeros.
pub open spec fn decimal(n: nat) -> Seq<char>
    decreases n,
{
    if n < 10 {
        seq![digit(n as int)]
    } else {
        decimal(n / 10).push(digit((n % 10) as int))
    }
}

/// A text with zeros in front of it, as many as it lacks to `width`.
pub open spec fn padded(text: Seq<char>, width: nat) -> Seq<char> {
    if text.len() < width {
        Seq::new((width - text.len()) as nat, |i: int| '0') + text
    } else {
        text
    }
}

/// A year as ISO 8601 writes it: four digits, and outside 0 to 9999 a sign
/// and at least four digits.
pub open spec fn year_text(year: int) -> Seq<char> {
    if 0 <= year <= 9999 {
        padded(decimal(year as nat), 4)
    } else if year < 0 {
        seq!['-'] + padded(decimal((-year) as nat), 4)
    } else {
        seq!['+'] + padded(decimal(year as nat), 4)
    }
}

/// A date as ISO 8601 writes it: year, month and day, with hyphens between.
pub open spec fn iso_text(ymd: Ymd) -> Seq<char> {
    year_text(ymd.year) + seq!['-'] + padded(decimal(ymd.month as nat), 2) + seq!['-'] + padded(
        decimal(ymd.day as nat),
        2,
    )
}

/// A day of the proleptic Gregorian calendar.
#[derive(Clone, Copy, Debug, PartialEq, Eq)]
pub struct Date {
    year: i32,
    month: u32,
    day: u32,
}

impl View for Date {
    type V = Ymd;

    closed spec fn view(&self) -> Ymd {
        Ymd { year: self.year as int, month: self.month as int, day: self.day as int }
    }
}

/// Appends `n` in decimal to `out`.
fn push_decimal(out: &mut String, n: u32)
    ensures
        final(out)@ == old(out)@ + decimal(n as nat),
    decreases n,
{
    if n >= 10 {
        push_decimal(out, n / 10);
    }
    let d: u8 = (n % 10) as u8;
    out.push((48 + d) as char);
}

/// The number of digits of `n` in decimal.
fn decimal_len(n: u32) -> (len: usize)
    ensures
        len == decimal(n as nat).len(),
        1 <= len <= 10,
    decreases n,
{
    if n >= 10 {
        proof {
            lemma_decimal_len(n as nat / 10);
        }
        decimal_len(n / 10) + 1
    } else {
        1
    }
}

/// A number below a power of ten has no more digits than that power has
/// zeros.
proof fn lemma_decimal_len(n: nat)
    ensures
        n < 10 ==> decimal(n).len() == 1,
        n < 100 ==> decimal(n).len() <= 2,
        n < 1000 ==> decimal(n).len() <= 3,
        n < 10000 ==> decimal(n).len() <= 4,
        n < 100000 ==> decimal(n).len() <= 5,
        n < 1000000 ==> decimal(n).len() <= 6,
        n < 10000000 ==> decimal(n).len() <= 7,
        n < 100000000 ==> decimal(n).len() <= 8,
        n < 1000000000 ==> decimal(n).len() <= 9,
        n < 10000000000 ==> decimal(n).len() <= 10,
    decreases n,
{
    if n >= 10 {
        lemma_decimal_len(n / 10);
    }
}

/// Appends `n` in decimal to `out`, with zeros in front up to `width`.
fn push_padded(out: &mut String, n: u32, width: usize)
    ensures
        final(out)@ == old(out)@ + padded(decimal(n as nat), width as nat),
{
    let len = decimal_len(n);
    let ghost start = out@;
    let mut zeros: usize = 0;
    while zeros + len < width
        invariant
            len == decimal(n as nat).len(),
            zeros == 0 || zeros + len <= width,
            out@ == start + Seq::new(zeros as nat, |i: int| '0'),
        decreases width - zeros,
    {
        out.push('0');
        zeros += 1;
        assert(out@ =~= start + Seq::new(zeros as nat, |i: int| '0'));
    }
    push_decimal(out, n);
    assert(out@ =~= start + padded(decimal(n as nat), width as nat));
}

/// The calendar repeats every 400 years: a year and the year 262400 years
/// later leave the same remainders by 4, by 100 and by 400.
proof fn lemma_years_repeat(year: int)
    ensures
        (year + 262400) % 4 == year % 4,
        (year + 262400) % 100 == year % 100,
        (year + 262400) % 400 == year % 400,
{
    lemma_mod_multiples_vanish(65600, year, 4);
    lemma_mod_multiples_vanish(2624, year, 100);
    lemma_mod_multiples_vanish(656, year, 400);
}

/// Tells a leap year.
fn leap_year(year: i32) -> (leap: bool)
    requires
        MIN_YEAR <= year <= MAX_YEAR,
    ensures
        leap == is_leap_year(year as int),
{
    proof {
        lemma_years_repeat(year as int);
    }
    // Shifted by a multiple of 400 the year is positive, and remainders are
    // what the calendar means by them.
    let shifted: u32 = (year + 262400) as u32;
    shifted % 4 == 0 && (shifted % 100 != 0 || shifted % 400 == 0)
}

impl Date {
    /// The day `day` of month `month` of year `year`, if there is one.
    pub fn from_ymd_opt(year: i32, month: u32, day: u32) -> (date: Option<Date>)
        ensures
            match date {
                Some(d) => d@ == (Ymd { year: year as int, month: month as int, day: day as int }),
                None => !is_date(Ymd { year: year as int, month: month as int, day: day as int }),
            },
            date is Some ==> is_date(date->0@),
    {
        if year < MIN_YEAR || year > MAX_YEAR || month < 1 || month > 12 || day < 1 {
            return None;
        }
        let leap = leap_year(year);
        let days: u32 = if month == 2 {
            if leap {
                29
            } else {
                28
            }
        } else if month == 4 || month == 6 || month == 9 || month == 11 {
            30
        } else {
            31
        };
        if day > days {
            return None;
        }
        Some(Date { year, month, day })
    }

    #[verifier::type_invariant]
    spec fn is_valid(self) -> bool {
        is_date(self@)
    }

    /// The year.
    pub fn year(&self) -> (year: i32)
        ensures
            year == self@.year,
            is_date(self@),
    {
        proof {
            use_type_invariant(self);
        }
        self.year
    }

    /// The month, from 1.
    pub fn month(&self) -> (month: u32)
        ensures
            month == self@.month,
            is_date(self@),
    {
        proof {
            use_type_invariant(self);
        }
        self.month
    }

    /// The day of the month, from 1.
    pub fn day(&self) -> (day: u32)
        ensures
            day == self@.day,
            is_date(self@),
    {
        proof {
            use_type_invariant(self);
        }
        self.day
    }

    /// The date as ISO 8601 writes it.
    pub fn to_text(&self) -> (text: String)
        ensures
            text@ == iso_text(self@),
            is_date(self@),
    {
        proof {
            use_type_invariant(self);
        }
        let mut out = String::new();
        if 0 <= self.year && self.year <= 9999 {
            push_padded(&mut out, self.year as u32, 4);
        } else if self.year < 0 {
            out.push('-');
            push_padded(&mut out, (-self.year) as u32, 4);
        } else {
            out.push('+');
            push_padded(&mut out, self.year as u32, 4);
        }
        assert(out@ =~= year_text(self@.year));
        out.push('-');
        push_padded(&mut out, self.month, 2);
        out.push('-');
        push_padded(&mut out, self.day, 2);
        assert(out@ =~= iso_text(self@));
        out
    }
}

} // verus!
