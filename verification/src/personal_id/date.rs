//! What a personal identification number says of its holder: a gender and a
//! date of birth in the Gregorian calendar.

use crate::checksum::digit_char;
use crate::random::draw_below;
use rand::rngs::StdRng;
use vstd::prelude::*;

verus! {

/// The two genders that the numbers encode.
#[derive(Clone, Copy, Debug, PartialEq, Eq, Structural)]
pub enum Gender {
    Male,
    Female,
}

impl Gender {
    /// The word that stands for the gender in parsed fields.
    pub open spec fn label_text(self) -> Seq<char> {
        match self {
            Gender::Male => "Male"@,
            Gender::Female => "Female"@,
        }
    }

    /// `Male` or `Female`.
    pub fn label(&self) -> (word: &'static str)
        ensures
            word@ == self.label_text(),
    {
        match self {
            Gender::Male => "Male",
            Gender::Female => "Female",
        }
    }
}

/// The Gregorian rule: every fourth year, but of the hundreds only every
/// fourth.
pub open spec fn is_leap_year(year: int) -> bool {
    year % 4 == 0 && (year % 100 != 0 || year % 400 == 0)
}

/// The number of days of a month; 0 for a month that is none.
pub open spec fn days_in_month(year: int, month: int) -> int {
    if month == 2 {
        if is_leap_year(year) {
            29
        } else {
            28
        }
    } else if month == 4 || month == 6 || month == 9 || month == 11 {
        30
    } else if 1 <= month <= 12 {
        31
    } else {
        0
    }
}

/// Whether `year` is a leap year.
pub fn leap_year(year: u16) -> (leap: bool)
    ensures
        leap == is_leap_year(year as int),
{
    year % 4 == 0 && (year % 100 != 0 || year % 400 == 0)
}

/// The number of days of a month; 0 for a month that is none.
pub fn month_length(year: u16, month: u8) -> (days: u8)
    ensures
        days == days_in_month(year as int, month as int),
{
    if month == 2 {
        if leap_year(year) {
            29
        } else {
            28
        }
    } else if month == 4 || month == 6 || month == 9 || month == 11 {
        30
    } else if 1 <= month && month <= 12 {
        31
    } else {
        0
    }
}

/// A day of the calendar. The fields are open, so a value may name a day
/// that does not exist: `is_valid` tells.
#[derive(Clone, Copy, Debug, PartialEq, Eq, Structural)]
pub struct Date {
    pub year: u16,
    pub month: u8,
    pub day: u8,
}

impl Date {
    /// A day that exists, in a year of at most four digits.
    pub open spec fn is_valid(self) -> bool {
        &&& self.year <= 9999
        &&& 1 <= self.day <= days_in_month(self.year as int, self.month as int)
    }

    /// The date as `YYYY-MM-DD`.
    pub open spec fn iso(self) -> Seq<char> {
        let y = self.year as nat;
        let m = self.month as nat;
        let d = self.day as nat;
        seq![
            digit_char(y / 1000),
            digit_char(y / 100 % 10),
            digit_char(y / 10 % 10),
            digit_char(y % 10),
            '-',
            digit_char(m / 10),
            digit_char(m % 10),
            '-',
            digit_char(d / 10),
            digit_char(d % 10),
        ]
    }

    /// Whether the date names a day that exists.
    pub fn check(&self) -> (ok: bool)
        ensures
            ok == self.is_valid(),
    {
        self.year <= 9999 && 1 <= self.day && self.day <= month_length(self.year, self.month)
    }

    /// The date of the three numbers, where they name a day that exists.
    pub fn new(year: u16, month: u8, day: u8) -> (date: Option<Date>)
        ensures
            date == (if (Date { year, month, day }).is_valid() {
                Some(Date { year, month, day })
            } else {
                None
            }),
    {
        let date = Date { year, month, day };
        if date.check() {
            Some(date)
        } else {
            None
        }
    }

    /// The date as `YYYY-MM-DD`; nothing for a day that does not exist.
    pub fn to_iso(&self) -> (text: Option<String>)
        ensures
            match text {
                Some(text) => self.is_valid() && text@ == self.iso(),
                None => !self.is_valid(),
            },
    {
        if !self.check() {
            return None;
        }
        let mut text = String::new();
        text.push(((self.year / 1000) as u8 + 48) as char);
        text.push(((self.year / 100 % 10) as u8 + 48) as char);
        text.push(((self.year / 10 % 10) as u8 + 48) as char);
        text.push(((self.year % 10) as u8 + 48) as char);
        text.push('-');
        text.push((self.month / 10 + 48) as char);
        text.push((self.month % 10 + 48) as char);
        text.push('-');
        text.push((self.day / 10 + 48) as char);
        text.push((self.day % 10 + 48) as char);
        assert(text@ =~= self.iso());
        Some(text)
    }
}

/// A year of at most four digits is its hundreds, its tens and its units.
pub proof fn lemma_year_digits(year: int)
    requires
        0 <= year <= 9999,
    ensures
        year == year / 100 * 100 + year % 100 / 10 * 10 + year % 10,
        0 <= year % 100 / 10 <= 9,
        0 <= year % 10 <= 9,
{
}

/// The first year that a birth date is drawn from where no year is asked
/// for.
pub const FIRST_DRAWN_YEAR: u16 = 1930;

/// The last year that a birth date is drawn from where no year is asked for.
pub const LAST_DRAWN_YEAR: u16 = 2019;

/// What a drawn birth date owes to the year that was asked for: that year, or
/// one of the usual span where none was.
pub open spec fn year_as_asked(year: Option<u16>, birth: Date) -> bool {
    match year {
        Some(asked) => birth.year == asked,
        None => FIRST_DRAWN_YEAR <= birth.year <= LAST_DRAWN_YEAR,
    }
}

/// A birth date drawn from `rng`: in the year that is asked for, or in one of
/// the usual span.
pub(crate) fn draw_birth(year: Option<u16>, rng: &mut StdRng) -> (birth: Date)
    requires
        year matches Some(asked) ==> asked <= 9999,
    ensures
        birth.is_valid(),
        year_as_asked(year, birth),
{
    let year: u16 = match year {
        Some(asked) => asked,
        None => FIRST_DRAWN_YEAR + draw_below(
            rng,
            (LAST_DRAWN_YEAR - FIRST_DRAWN_YEAR + 1) as u32,
        ) as u16,
    };
    let month: u8 = 1 + draw_below(rng, 12) as u8;
    let day: u8 = 1 + draw_below(rng, month_length(year, month) as u32) as u8;
    Date { year, month, day }
}

/// The gender that is asked for, or one drawn from `rng`.
pub(crate) fn draw_gender(gender: Option<Gender>, rng: &mut StdRng) -> (drawn: Gender)
    ensures
        gender matches Some(asked) ==> drawn == asked,
{
    match gender {
        Some(asked) => asked,
        None => if draw_below(rng, 2) == 0 {
            Gender::Male
        } else {
            Gender::Female
        },
    }
}

} // verus!
