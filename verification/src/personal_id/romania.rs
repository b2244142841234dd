//! Romania: the cod numeric personal, thirteen digits `S YYMMDD JJ NNN C`.
//!
//! `S` is 1 or 2 for men and women born 1900-1999, 3 or 4 for those born
//! 1800-1899, 5 or 6 for those born 2000-2099; 7 and 8 are men and women who
//! are residents from abroad, whose century the digit does not tell, and 9 is
//! a foreign citizen. `JJ` is the county of registration, `NNN` the order
//! among those registered there on one day. `C` is the sum of the first
//! twelve digits under the weights 2 7 9 1 4 6 3 5 8 2 7 9, modulo 11, and 1
//! where that is 10.

use crate::checksum::{all_digits, is_digit};
use crate::personal_id::date::{
    draw_birth, draw_gender, lemma_year_digits, year_as_asked, Date, Gender,
};
use crate::personal_id::digits::{
    all_decimal, digit_text, digit_values, lemma_text_read_back, lemma_weighted_sum_of_prefix,
    read_digits, weighted_sum, weighted_sum_of, write_digits,
};
use crate::personal_id::{meets, render, rendered, Decoded, GenOptions, ParsedFields};
use crate::random::draw_below;
use rand::rngs::StdRng;
use vstd::prelude::*;

verus! {

/// The first year of birth that a number can encode.
pub const FIRST_YEAR: u16 = 1800;

/// The last year of birth that a number can encode.
pub const LAST_YEAR: u16 = 2099;

/// The weights of the digits before the check digit.
pub open spec fn weights() -> Seq<u8> {
    seq![2u8, 7u8, 9u8, 1u8, 4u8, 6u8, 3u8, 5u8, 8u8, 2u8, 7u8, 9u8]
}

/// The check digit that the first twelve digits call for.
pub open spec fn check_digit(digits: Seq<u8>) -> u8 {
    let rest = weighted_sum(digits, weights()) % 11;
    if rest == 10 {
        1
    } else {
        rest as u8
    }
}

/// The counties: 1 to 46, and 51 and 52.
pub open spec fn is_county(county: u8) -> bool {
    1 <= county <= 46 || county == 51 || county == 52
}

/// What can be encoded: a day that exists, in a year that the leading digit
/// can tell, a county, and an order number from 1 to 999.
pub open spec fn can_encode(birth: Date, county: u8, order: u16) -> bool {
    &&& birth.is_valid()
    &&& FIRST_YEAR <= birth.year <= LAST_YEAR
    &&& is_county(county)
    &&& 1 <= order <= 999
}

/// The leading digit for a gender and a year of birth.
pub open spec fn lead_digit(gender: Gender, year: u16) -> u8 {
    let base: u8 = if year < 1900 {
        3
    } else if year < 2000 {
        1
    } else {
        5
    };
    match gender {
        Gender::Male => base,
        Gender::Female => (base + 1) as u8,
    }
}

/// The first twelve digits.
pub open spec fn body(gender: Gender, birth: Date, county: u8, order: u16) -> Seq<u8> {
    seq![
        lead_digit(gender, birth.year),
        (birth.year % 100 / 10) as u8,
        (birth.year % 10) as u8,
        birth.month / 10,
        birth.month % 10,
        birth.day / 10,
        birth.day % 10,
        county / 10,
        county % 10,
        (order / 100) as u8,
        (order / 10 % 10) as u8,
        (order % 10) as u8,
    ]
}

/// The number for a gender, a date of birth, a county and an order number.
pub open spec fn encoded(gender: Gender, birth: Date, county: u8, order: u16) -> Seq<char> {
    let digits = body(gender, birth, county, order);
    digit_text(digits.push(check_digit(digits)))
}

/// The gender that the leading digit tells: odd for men, even for women, and
/// none for 0 and 9.
pub open spec fn gender_of(digits: Seq<u8>) -> Option<Gender> {
    if 1 <= digits[0] <= 8 {
        Some(
            if digits[0] % 2 == 1 {
                Gender::Male
            } else {
                Gender::Female
            },
        )
    } else {
        None
    }
}

/// The first year of the century that the leading digit tells.
pub open spec fn century_of(lead: u8) -> Option<int> {
    if lead == 1 || lead == 2 {
        Some(1900)
    } else if lead == 3 || lead == 4 {
        Some(1800)
    } else if lead == 5 || lead == 6 {
        Some(2000)
    } else {
        None
    }
}

/// The date of birth that the digits tell, where the century is told and the
/// day exists.
pub open spec fn birth_of(digits: Seq<u8>) -> Option<Date> {
    match century_of(digits[0]) {
        Some(century) => {
            let date = Date {
                year: (century + digits[1] * 10 + digits[2]) as u16,
                month: (digits[3] * 10 + digits[4]) as u8,
                day: (digits[5] * 10 + digits[6]) as u8,
            };
            if date.is_valid() {
                Some(date)
            } else {
                None
            }
        },
        None => None,
    }
}

/// What a string says as a cod numeric personal: nothing unless it is
/// thirteen digits.
pub open spec fn decoded(code: Seq<char>) -> Option<Decoded> {
    if code.len() == 13 && all_digits(code) {
        let digits = digit_values(code);
        Some(
            Decoded {
                gender: gender_of(digits),
                birth: birth_of(digits),
                valid: digits[12] == check_digit(digits),
            },
        )
    } else {
        None
    }
}

/// Whether a number can be generated for the options: the year, where one is
/// asked for, has to be one that the leading digit can tell.
pub open spec fn feasible(options: GenOptions) -> bool {
    options.year matches Some(year) ==> FIRST_YEAR <= year <= LAST_YEAR
}

/// The digits before the check digit are decimal digits, and gender and date
/// of birth can be read back from them.
proof fn lemma_body_digits(gender: Gender, birth: Date, county: u8, order: u16)
    requires
        can_encode(birth, county, order),
    ensures
        body(gender, birth, county, order).len() == 12,
        all_decimal(body(gender, birth, county, order)),
        gender_of(body(gender, birth, county, order)) == Some(gender),
        birth_of(body(gender, birth, county, order)) == Some(birth),
{
    let front = body(gender, birth, county, order);
    let year = birth.year as int;
    lemma_year_digits(year);
    assert(1 <= birth.month <= 12 && 1 <= birth.day <= 31);
    assert(front[0] == lead_digit(gender, birth.year));
    assert(century_of(front[0]) == Some(year / 100 * 100));
    assert(front[1] * 10 + front[2] == year % 100);
    assert(front[3] * 10 + front[4] == birth.month);
    assert(front[5] * 10 + front[6] == birth.day);
}

/// Gender and date of birth can be read back from any row that starts with
/// the digits before the check digit.
proof fn lemma_body_reads_back(gender: Gender, birth: Date, county: u8, order: u16, digits: Seq<u8>)
    requires
        can_encode(birth, county, order),
        digits.len() >= 12,
        digits.take(12) == body(gender, birth, county, order),
    ensures
        all_decimal(digits.take(12)),
        gender_of(digits) == Some(gender),
        birth_of(digits) == Some(birth),
{
    let front = body(gender, birth, county, order);
    lemma_body_digits(gender, birth, county, order);
    assert forall|i: int| 0 <= i < 12 implies digits[i] == front[i] by {
        assert(digits.take(12)[i] == digits[i]);
    }
    assert(digits[0] == front[0] && digits[1] == front[1] && digits[2] == front[2]);
    assert(digits[3] == front[3] && digits[4] == front[4] && digits[5] == front[5]);
    assert(digits[6] == front[6] && digits[7] == front[7] && digits[8] == front[8]);
}

/// An encoded number decodes to what went into it, and its check digit is
/// right.
pub proof fn lemma_round_trip(gender: Gender, birth: Date, county: u8, order: u16)
    requires
        can_encode(birth, county, order),
    ensures
        decoded(encoded(gender, birth, county, order)) == Some(
            Decoded { gender: Some(gender), birth: Some(birth), valid: true },
        ),
{
    let front = body(gender, birth, county, order);
    let digits = front.push(check_digit(front));
    assert(digits.take(12) =~= front);
    lemma_body_reads_back(gender, birth, county, order, digits);
    assert(all_decimal(digits)) by {
        assert forall|i: int| 0 <= i < digits.len() implies #[trigger] digits[i] < 10 by {
            if i < 12 {
                assert(digits[i] == digits.take(12)[i]);
            }
        }
    }
    lemma_text_read_back(digits);
    lemma_weighted_sum_of_prefix(digits, weights(), 12);
}

/// A valid number with another digit in the place of its check digit is not
/// valid, and still tells the same gender and date of birth.
pub proof fn lemma_changed_check_digit(code: Seq<char>, digit: char)
    requires
        decoded(code) matches Some(told) && told.valid,
        is_digit(digit),
        digit != code[12],
    ensures
        decoded(code.update(12, digit)) matches Some(told) && !told.valid && told.gender
            == decoded(code)->0.gender && told.birth == decoded(code)->0.birth,
{
    let changed = code.update(12, digit);
    let before = digit_values(code);
    let after = digit_values(changed);
    assert(is_digit(code[12]));
    assert(all_digits(changed)) by {
        assert forall|i: int| 0 <= i < changed.len() implies is_digit(#[trigger] changed[i]) by {
            if i != 12 {
                assert(changed[i] == code[i]);
            }
        }
    }
    assert(after.take(12) =~= before.take(12));
    lemma_weighted_sum_of_prefix(before, weights(), 12);
    lemma_weighted_sum_of_prefix(after, weights(), 12);
    assert(after[12] != before[12]);
    assert(after[0] == before[0] && after[1] == before[1] && after[2] == before[2]);
    assert(after[3] == before[3] && after[4] == before[4] && after[5] == before[5]);
    assert(after[6] == before[6] && after[7] == before[7] && after[8] == before[8]);
}

/// What every generated number is: the encoding of a gender and a date of
/// birth that are as the options ask, and of further fields that can be
/// encoded.
pub open spec fn drawn_for(options: GenOptions, code: Seq<char>) -> bool {
    exists|gender: Gender, birth: Date, county: u8, order: u16|
        {
            &&& #[trigger] encoded(gender, birth, county, order) == code
            &&& can_encode(birth, county, order)
            &&& options.gender matches Some(asked) ==> gender == asked
            &&& year_as_asked(options.year, birth)
        }
}

/// A generated number decodes, with the right check digit, to a gender and a
/// date of birth that are as the options ask.
pub proof fn lemma_drawn_meets(options: GenOptions, code: Seq<char>)
    requires
        drawn_for(options, code),
    ensures
        meets(options, decoded(code)),
{
    let (gender, birth, county, order) = choose|gender: Gender, birth: Date, county: u8, order: u16|
        {
            &&& #[trigger] encoded(gender, birth, county, order) == code
            &&& can_encode(birth, county, order)
            &&& options.gender matches Some(asked) ==> gender == asked
            &&& year_as_asked(options.year, birth)
        };
    lemma_round_trip(gender, birth, county, order);
}

/// The check digit for the first twelve of `digits`.
fn check_digit_of(digits: &Vec<u8>) -> (check: u8)
    requires
        digits.len() >= 12,
    ensures
        check == check_digit(digits@),
        check < 10,
{
    let row: Vec<u8> = vec![2, 7, 9, 1, 4, 6, 3, 5, 8, 2, 7, 9];
    assert(row@ =~= weights());
    let rest = weighted_sum_of(digits, &row) % 11;
    if rest == 10 {
        1
    } else {
        rest as u8
    }
}

/// Encodes a gender, a date of birth, a county and an order number; nothing
/// where they cannot be encoded.
pub fn encode(gender: Gender, birth: Date, county: u8, order: u16) -> (code: Option<String>)
    ensures
        match code {
            Some(code) => can_encode(birth, county, order) && code@ == encoded(
                gender,
                birth,
                county,
                order,
            ),
            None => !can_encode(birth, county, order),
        },
{
    let known_county = (1 <= county && county <= 46) || county == 51 || county == 52;
    if !birth.check() || birth.year < FIRST_YEAR || birth.year > LAST_YEAR || !known_county
        || order < 1 || order > 999 {
        return None;
    }
    let base: u8 = if birth.year < 1900 {
        3
    } else if birth.year < 2000 {
        1
    } else {
        5
    };
    let lead: u8 = match gender {
        Gender::Male => base,
        Gender::Female => base + 1,
    };
    let mut digits: Vec<u8> = vec![
        lead,
        (birth.year % 100 / 10) as u8,
        (birth.year % 10) as u8,
        birth.month / 10,
        birth.month % 10,
        birth.day / 10,
        birth.day % 10,
        county / 10,
        county % 10,
        (order / 100) as u8,
        (order / 10 % 10) as u8,
        (order % 10) as u8,
    ];
    assert(digits@ =~= body(gender, birth, county, order));
    let check = check_digit_of(&digits);
    digits.push(check);
    assert(all_decimal(digits@));
    Some(write_digits(&digits))
}

/// Reads a number field by field; nothing unless it is thirteen digits.
pub fn decode(code: &str) -> (fields: Option<Decoded>)
    ensures
        fields == decoded(code@),
{
    match read_digits(code, 13) {
        None => None,
        Some(digits) => {
            assert(digits@[0] < 10 && digits@[1] < 10 && digits@[2] < 10 && digits@[3] < 10
                && digits@[4] < 10 && digits@[5] < 10 && digits@[6] < 10);
            let lead = digits[0];
            let gender = if 1 <= lead && lead <= 8 {
                Some(
                    if lead % 2 == 1 {
                        Gender::Male
                    } else {
                        Gender::Female
                    },
                )
            } else {
                None
            };
            let century: Option<u16> = if lead == 1 || lead == 2 {
                Some(1900)
            } else if lead == 3 || lead == 4 {
                Some(1800)
            } else if lead == 5 || lead == 6 {
                Some(2000)
            } else {
                None
            };
            let birth = match century {
                Some(century) => Date::new(
                    century + (digits[1] * 10 + digits[2]) as u16,
                    digits[3] * 10 + digits[4],
                    digits[5] * 10 + digits[6],
                ),
                None => None,
            };
            let valid = digits[12] == check_digit_of(&digits);
            Some(Decoded { gender, birth, valid })
        },
    }
}

/// Generates a number for the options: for the gender and the year of birth
/// that are asked for, with the rest drawn from `rng`. Nothing comes back
/// only where the year is one that no number can encode.
pub fn generate(options: &GenOptions, rng: &mut StdRng) -> (code: Option<String>)
    ensures
        code is Some <==> feasible(*options),
        code matches Some(code) ==> drawn_for(*options, code@),
        code matches Some(code) ==> meets(*options, decoded(code@)),
{
    match options.year {
        Some(year) => if year < FIRST_YEAR || year > LAST_YEAR {
            return None;
        },
        None => {},
    }
    let birth = draw_birth(options.year, rng);
    let gender = draw_gender(options.gender, rng);
    let drawn = draw_below(rng, 48) as u8;
    let county: u8 = if drawn < 46 {
        drawn + 1
    } else {
        drawn + 5
    };
    let order = 1 + draw_below(rng, 999) as u16;
    proof {
        lemma_round_trip(gender, birth, county, order);
    }
    encode(gender, birth, county, order)
}

/// Parses a number into display fields; nothing unless it is thirteen
/// digits. Gender and date of birth are told whether or not the check digit
/// is right.
pub fn parse(code: &str) -> (fields: Option<ParsedFields>)
    ensures
        match fields {
            Some(fields) => decoded(code@) matches Some(told) && fields@ == rendered(code@, told),
            None => decoded(code@) is None,
        },
{
    match decode(code) {
        Some(told) => Some(render(code, &told)),
        None => None,
    }
}

} // verus!
