//! Lithuania: the asmens kodas, eleven digits `G YYMMDD NNN C`.
//!
//! `G` is 1 or 2 for men and women born 1800-1899, 3 or 4 for those born
//! 1900-1999, 5 or 6 for those born 2000-2099. `NNN` is the order of
//! registration among those born on one day. `C` is the sum of the first ten
//! digits under the weights 1 2 3 4 5 6 7 8 9 1, modulo 11; where that is 10,
//! the same under 3 4 5 6 7 8 9 1 2 3; where that is 10 again, 0.

use crate::checksum::{all_digits, is_digit};
use crate::personal_id::date::{
    draw_birth, draw_gender, lemma_year_digits, year_as_asked, Date, Gender,
};
use crate::personal_id::digits::{
    all_decimal, digit_text, digit_values, lemma_text_read_back, lemma_weighted_sum_of_prefix,
    read_digits, weighted_sum, weighted_sum_of, write_digits,
};
use crate::personal_id::{meets, render, rendered, Decoded, GenOptions, ParsedFields};
use crate::random::draw_below;
use rand::rngs::StdRng;
use vstd::prelude::*;

verus! {

/// The first year of birth that a number can encode.
pub const FIRST_YEAR: u16 = 1800;

/// The last year of birth that a number can encode.
pub const LAST_YEAR: u16 = 2099;

/// The weights of the first pass.
pub open spec fn first_weights() -> Seq<u8> {
    seq![1u8, 2u8, 3u8, 4u8, 5u8, 6u8, 7u8, 8u8, 9u8, 1u8]
}

/// The weights of the second pass.
pub open spec fn second_weights() -> Seq<u8> {
    seq![3u8, 4u8, 5u8, 6u8, 7u8, 8u8, 9u8, 1u8, 2u8, 3u8]
}

/// The check digit that the first ten digits call for.
pub open spec fn check_digit(digits: Seq<u8>) -> u8 {
    let first = weighted_sum(digits, first_weights()) % 11;
    let second = weighted_sum(digits, second_weights()) % 11;
    if first < 10 {
        first as u8
    } else if second < 10 {
        second as u8
    } else {
        0
    }
}

/// What can be encoded: a day that exists, in a year that the leading digit
/// can tell, and an order number of three digits.
pub open spec fn can_encode(birth: Date, serial: u16) -> bool {
    &&& birth.is_valid()
    &&& FIRST_YEAR <= birth.year <= LAST_YEAR
    &&& serial <= 999
}

/// The leading digit for a gender and a year of birth.
pub open spec fn lead_digit(gender: Gender, year: u16) -> u8 {
    let century = (year - 1800) / 100;
    match gender {
        Gender::Male => (2 * century + 1) as u8,
        Gender::Female => (2 * century + 2) as u8,
    }
}

/// The first ten digits.
pub open spec fn body(gender: Gender, birth: Date, serial: u16) -> Seq<u8> {
    seq![
        lead_digit(gender, birth.year),
        (birth.year % 100 / 10) as u8,
        (birth.year % 10) as u8,
        birth.month / 10,
        birth.month % 10,
        birth.day / 10,
        birth.day % 10,
        (serial / 100) as u8,
        (serial / 10 % 10) as u8,
        (serial % 10) as u8,
    ]
}

/// The number for a gender, a date of birth and a serial number.
pub open spec fn encoded(gender: Gender, birth: Date, serial: u16) -> Seq<char> {
    let digits = body(gender, birth, serial);
    digit_text(digits.push(check_digit(digits)))
}

/// The gender that a leading digit tells: odd for men, even for women.
pub open spec fn gender_of(lead: u8) -> Option<Gender> {
    if 1 <= lead <= 6 {
        Some(
            if lead % 2 == 1 {
                Gender::Male
            } else {
                Gender::Female
            },
        )
    } else {
        None
    }
}

/// The date of birth that the first seven digits tell, where it is a day
/// that exists.
pub open spec fn birth_of(digits: Seq<u8>) -> Option<Date> {
    let date = Date {
        year: (1800 + (digits[0] - 1) / 2 * 100 + digits[1] * 10 + digits[2]) as u16,
        month: (digits[3] * 10 + digits[4]) as u8,
        day: (digits[5] * 10 + digits[6]) as u8,
    };
    if 1 <= digits[0] <= 6 && date.is_valid() {
        Some(date)
    } else {
        None
    }
}

/// What a string says as an asmens kodas: nothing unless it is eleven digits.
pub open spec fn decoded(code: Seq<char>) -> Option<Decoded> {
    if code.len() == 11 && all_digits(code) {
        let digits = digit_values(code);
        Some(
            Decoded {
                gender: gender_of(digits[0]),
                birth: birth_of(digits),
                valid: digits[10] == check_digit(digits),
            },
        )
    } else {
        None
    }
}

/// Whether a number can be generated for the options: the year, where one is
/// asked for, has to be one that the leading digit can tell.
pub open spec fn feasible(options: GenOptions) -> bool {
    options.year matches Some(year) ==> FIRST_YEAR <= year <= LAST_YEAR
}

/// The digits before the check digit are decimal digits, and gender and date
/// of birth can be read back from them.
proof fn lemma_body_digits(gender: Gender, birth: Date, serial: u16)
    requires
        can_encode(birth, serial),
    ensures
        body(gender, birth, serial).len() == 10,
        all_decimal(body(gender, birth, serial)),
        gender_of(body(gender, birth, serial)[0]) == Some(gender),
        birth_of(body(gender, birth, serial)) == Some(birth),
{
    let front = body(gender, birth, serial);
    let year = birth.year as int;
    lemma_year_digits(year);
    assert(1 <= birth.month <= 12 && 1 <= birth.day <= 31);
    let century = (year - 1800) / 100;
    assert(0 <= century <= 2);
    assert(year / 100 * 100 == 1800 + century * 100);
    assert(front[0] == 2 * century + 1 || front[0] == 2 * century + 2);
    assert((front[0] - 1) / 2 == century);
    assert(1800 + (front[0] - 1) / 2 * 100 + front[1] * 10 + front[2] == year);
    assert(front[3] * 10 + front[4] == birth.month);
    assert(front[5] * 10 + front[6] == birth.day);
}

/// Gender and date of birth can be read back from any row that starts with
/// the digits before the check digit.
proof fn lemma_body_reads_back(gender: Gender, birth: Date, serial: u16, digits: Seq<u8>)
    requires
        can_encode(birth, serial),
        digits.len() >= 10,
        digits.take(10) == body(gender, birth, serial),
    ensures
        all_decimal(digits.take(10)),
        gender_of(digits[0]) == Some(gender),
        birth_of(digits) == Some(birth),
{
    let front = body(gender, birth, serial);
    lemma_body_digits(gender, birth, serial);
    assert forall|i: int| 0 <= i < 10 implies digits[i] == front[i] by {
        assert(digits.take(10)[i] == digits[i]);
    }
    assert(digits[0] == front[0] && digits[1] == front[1] && digits[2] == front[2]);
    assert(digits[3] == front[3] && digits[4] == front[4] && digits[5] == front[5]);
    assert(digits[6] == front[6] && digits[7] == front[7] && digits[8] == front[8]);
}

/// An encoded number decodes to what went into it, and its check digit is
/// right.
pub proof fn lemma_round_trip(gender: Gender, birth: Date, serial: u16)
    requires
        can_encode(birth, serial),
    ensures
        decoded(encoded(gender, birth, serial)) == Some(
            Decoded { gender: Some(gender), birth: Some(birth), valid: true },
        ),
{
    let front = body(gender, birth, serial);
    let digits = front.push(check_digit(front));
    assert(digits.take(10) =~= front);
    lemma_body_reads_back(gender, birth, serial, digits);
    assert(all_decimal(digits)) by {
        assert forall|i: int| 0 <= i < digits.len() implies #[trigger] digits[i] < 10 by {
            if i < 10 {
                assert(digits[i] == digits.take(10)[i]);
            }
        }
    }
    lemma_text_read_back(digits);
    lemma_weighted_sum_of_prefix(digits, first_weights(), 10);
    lemma_weighted_sum_of_prefix(digits, second_weights(), 10);
}

/// A valid number with another digit in the place of its check digit is not
/// valid, and still tells the same gender and date of birth.
pub proof fn lemma_changed_check_digit(code: Seq<char>, digit: char)
    requires
        decoded(code) matches Some(told) && told.valid,
        is_digit(digit),
        digit != code[10],
    ensures
        decoded(code.update(10, digit)) matches Some(told) && !told.valid && told.gender
            == decoded(code)->0.gender && told.birth == decoded(code)->0.birth,
{
    let changed = code.update(10, digit);
    let before = digit_values(code);
    let after = digit_values(changed);
    assert(is_digit(code[10]));
    assert(all_digits(changed)) by {
        assert forall|i: int| 0 <= i < changed.len() implies is_digit(#[trigger] changed[i]) by {
            if i != 10 {
                assert(changed[i] == code[i]);
            }
        }
    }
    assert(after.take(10) =~= before.take(10));
    lemma_weighted_sum_of_prefix(before, first_weights(), 10);
    lemma_weighted_sum_of_prefix(after, first_weights(), 10);
    lemma_weighted_sum_of_prefix(before, second_weights(), 10);
    lemma_weighted_sum_of_prefix(after, second_weights(), 10);
    assert(after[10] != before[10]);
    assert(after[0] == before[0] && after[1] == before[1] && after[2] == before[2]);
    assert(after[3] == before[3] && after[4] == before[4] && after[5] == before[5]);
    assert(after[6] == before[6] && after[7] == before[7] && after[8] == before[8]);
}

/// What every generated number is: the encoding of a gender and a date of
/// birth that are as the options ask, and of further fields that can be
/// encoded.
pub open spec fn drawn_for(options: GenOptions, code: Seq<char>) -> bool {
    exists|gender: Gender, birth: Date, serial: u16|
        {
            &&& #[trigger] encoded(gender, birth, serial) == code
            &&& can_encode(birth, serial)
            &&& options.gender matches Some(asked) ==> gender == asked
            &&& year_as_asked(options.year, birth)
        }
}

/// A generated number decodes, with the right check digit, to a gender and a
/// date of birth that are as the options ask.
pub proof fn lemma_drawn_meets(options: GenOptions, code: Seq<char>)
    requires
        drawn_for(options, code),
    ensures
        meets(options, decoded(code)),
{
    let (gender, birth, serial) = choose|gender: Gender, birth: Date, serial: u16|
        {
            &&& #[trigger] encoded(gender, birth, serial) == code
            &&& can_encode(birth, serial)
            &&& options.gender matches Some(asked) ==> gender == asked
            &&& year_as_asked(options.year, birth)
        };
    lemma_round_trip(gender, birth, serial);
}

/// The check digit for the first ten of `digits`.
fn check_digit_of(digits: &Vec<u8>) -> (check: u8)
    requires
        digits.len() >= 10,
    ensures
        check == check_digit(digits@),
        check < 10,
{
    let first_row: Vec<u8> = vec![1, 2, 3, 4, 5, 6, 7, 8, 9, 1];
    let second_row: Vec<u8> = vec![3, 4, 5, 6, 7, 8, 9, 1, 2, 3];
    assert(first_row@ =~= first_weights());
    assert(second_row@ =~= second_weights());
    let first = weighted_sum_of(digits, &first_row) % 11;
    if first < 10 {
        return first as u8;
    }
    let second = weighted_sum_of(digits, &second_row) % 11;
    if second < 10 {
        second as u8
    } else {
        0
    }
}

/// Encodes a gender, a date of birth and a serial number; nothing where they
/// cannot be encoded.
pub fn encode(gender: Gender, birth: Date, serial: u16) -> (code: Option<String>)
    ensures
        match code {
            Some(code) => can_encode(birth, serial) && code@ == encoded(gender, birth, serial),
            None => !can_encode(birth, serial),
        },
{
    if !birth.check() || birth.year < FIRST_YEAR || birth.year > LAST_YEAR || serial > 999 {
        return None;
    }
    let century: u8 = ((birth.year - 1800) / 100) as u8;
    let lead: u8 = match gender {
        Gender::Male => 2 * century + 1,
        Gender::Female => 2 * century + 2,
    };
    let mut digits: Vec<u8> = vec![
        lead,
        (birth.year % 100 / 10) as u8,
        (birth.year % 10) as u8,
        birth.month / 10,
        birth.month % 10,
        birth.day / 10,
        birth.day % 10,
        (serial / 100) as u8,
        (serial / 10 % 10) as u8,
        (serial % 10) as u8,
    ];
    assert(digits@ =~= body(gender, birth, serial));
    let check = check_digit_of(&digits);
    digits.push(check);
    assert(all_decimal(digits@));
    Some(write_digits(&digits))
}

/// Reads a number field by field; nothing unless it is eleven digits.
pub fn decode(code: &str) -> (fields: Option<Decoded>)
    ensures
        fields == decoded(code@),
{
    match read_digits(code, 11) {
        None => None,
        Some(digits) => {
            assert(digits@[0] < 10 && digits@[1] < 10 && digits@[2] < 10 && digits@[3] < 10
                && digits@[4] < 10 && digits@[5] < 10 && digits@[6] < 10);
            let lead = digits[0];
            let gender = if 1 <= lead && lead <= 6 {
                Some(
                    if lead % 2 == 1 {
                        Gender::Male
                    } else {
                        Gender::Female
                    },
                )
            } else {
                None
            };
            let birth = if 1 <= lead && lead <= 6 {
                Date::new(
                    1800 + ((lead - 1) / 2) as u16 * 100 + (digits[1] * 10 + digits[2]) as u16,
                    digits[3] * 10 + digits[4],
                    digits[5] * 10 + digits[6],
                )
            } else {
                None
            };
            let valid = digits[10] == check_digit_of(&digits);
            Some(Decoded { gender, birth, valid })
        },
    }
}

/// Generates a number for the options: for the gender and the year of birth
/// that are asked for, with the rest drawn from `rng`. Nothing comes back
/// only where the year is one that no number can encode.
pub fn generate(options: &GenOptions, rng: &mut StdRng) -> (code: Option<String>)
    ensures
        code is Some <==> feasible(*options),
        code matches Some(code) ==> drawn_for(*options, code@),
        code matches Some(code) ==> meets(*options, decoded(code@)),
{
    match options.year {
        Some(year) => if year < FIRST_YEAR || year > LAST_YEAR {
            return None;
        },
        None => {},
    }
    let birth = draw_birth(options.year, rng);
    let gender = draw_gender(options.gender, rng);
    let serial = draw_below(rng, 1000) as u16;
    proof {
        lemma_round_trip(gender, birth, serial);
    }
    encode(gender, birth, serial)
}

/// Parses a number into display fields; nothing unless it is eleven digits.
/// Gender and date of birth are told whether or not the check digit is right.
pub fn parse(code: &str) -> (fields: Option<ParsedFields>)
    ensures
        match fields {
            Some(fields) => decoded(code@) matches Some(told) && fields@ == rendered(code@, told),
            None => decoded(code@) is None,
        },
{
    match decode(code) {
        Some(told) => Some(render(code, &told)),
        None => None,
    }
}

} // verus!
