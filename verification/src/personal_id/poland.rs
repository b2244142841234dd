//! Poland: the PESEL, eleven digits `YYMMDD ZZZX Q`.
//!
//! The month carries the century: it stands as it is for 1900-1999, with 20
//! added for 2000-2099, 40 for 2100-2199, 60 for 2200-2299 and 80 for
//! 1800-1899. `ZZZX` is an ordinal number whose last digit `X` is odd for men
//! and even for women. `Q` is what brings the sum of the first ten digits
//! under the weights 1 3 7 9 1 3 7 9 1 3 up to a multiple of 10.

use crate::checksum::{all_digits, is_digit};
use crate::personal_id::date::{
    draw_birth, draw_gender, lemma_year_digits, year_as_asked, Date, Gender,
};
use crate::personal_id::digits::{
    all_decimal, digit_text, digit_values, lemma_text_read_back, lemma_weighted_sum_of_prefix,
    lemma_weighted_sum_update, read_digits, weighted_sum, weighted_sum_of, write_digits,
};
use crate::personal_id::{meets, render, rendered, Decoded, GenOptions, ParsedFields};
use crate::random::draw_below;
use rand::rngs::StdRng;
use vstd::prelude::*;

verus! {

/// The first year of birth that a number can encode.
pub const FIRST_YEAR: u16 = 1800;

/// The last year of birth that a number can encode.
pub const LAST_YEAR: u16 = 2299;

/// The weights of the digits before the check digit.
pub open spec fn weights() -> Seq<u8> {
    seq![1u8, 3u8, 7u8, 9u8, 1u8, 3u8, 7u8, 9u8, 1u8, 3u8]
}

/// The check digit that the first ten digits call for.
pub open spec fn check_digit(digits: Seq<u8>) -> u8 {
    ((10 - weighted_sum(digits, weights()) % 10) % 10) as u8
}

/// What can be encoded: a day that exists, in a year that the month can
/// tell, and a serial number below 5000.
pub open spec fn can_encode(birth: Date, serial: u16) -> bool {
    &&& birth.is_valid()
    &&& FIRST_YEAR <= birth.year <= LAST_YEAR
    &&& serial <= 4999
}

/// What is added to the month for the century of a year.
pub open spec fn month_offset(year: u16) -> u8 {
    if year < 1900 {
        80
    } else if year < 2000 {
        0
    } else if year < 2100 {
        20
    } else if year < 2200 {
        40
    } else {
        60
    }
}

/// The ordinal number: twice the serial number, and one more for a man.
pub open spec fn ordinal(gender: Gender, serial: u16) -> u16 {
    match gender {
        Gender::Male => (2 * serial + 1) as u16,
        Gender::Female => (2 * serial) as u16,
    }
}

/// The first ten digits.
pub open spec fn body(gender: Gender, birth: Date, serial: u16) -> Seq<u8> {
    let month = (birth.month + month_offset(birth.year)) as u8;
    let number = ordinal(gender, serial);
    seq![
        (birth.year % 100 / 10) as u8,
        (birth.year % 10) as u8,
        month / 10,
        month % 10,
        birth.day / 10,
        birth.day % 10,
        (number / 1000) as u8,
        (number / 100 % 10) as u8,
        (number / 10 % 10) as u8,
        (number % 10) as u8,
    ]
}

/// The number for a gender, a date of birth and a serial number.
pub open spec fn encoded(gender: Gender, birth: Date, serial: u16) -> Seq<char> {
    let digits = body(gender, birth, serial);
    digit_text(digits.push(check_digit(digits)))
}

/// The gender that the tenth digit tells: odd for men, even for women.
pub open spec fn gender_of(digits: Seq<u8>) -> Option<Gender> {
    Some(
        if digits[9] % 2 == 1 {
            Gender::Male
        } else {
            Gender::Female
        },
    )
}

/// The first year of the century that a month field tells.
pub open spec fn century_of(field: int) -> int {
    if field < 20 {
        1900
    } else if field < 40 {
        2000
    } else if field < 60 {
        2100
    } else if field < 80 {
        2200
    } else {
        1800
    }
}

/// The date of birth that the digits tell, where it is a day that exists.
pub open spec fn birth_of(digits: Seq<u8>) -> Option<Date> {
    let field = digits[2] * 10 + digits[3];
    let date = Date {
        year: (century_of(field) + digits[0] * 10 + digits[1]) as u16,
        month: (field % 20) as u8,
        day: (digits[4] * 10 + digits[5]) as u8,
    };
    if date.is_valid() {
        Some(date)
    } else {
        None
    }
}

/// What a string says as a PESEL: nothing unless it is eleven digits.
pub open spec fn decoded(code: Seq<char>) -> Option<Decoded> {
    if code.len() == 11 && all_digits(code) {
        let digits = digit_values(code);
        Some(
            Decoded {
                gender: gender_of(digits),
                birth: birth_of(digits),
                valid: digits[10] == check_digit(digits),
            },
        )
    } else {
        None
    }
}

/// Whether a number can be generated for the options: the year, where one is
/// asked for, has to be one that the month can tell.
pub open spec fn feasible(options: GenOptions) -> bool {
    options.year matches Some(year) ==> FIRST_YEAR <= year <= LAST_YEAR
}

/// The digits before the check digit are decimal digits, and gender and date
/// of birth can be read back from them.
proof fn lemma_body_digits(gender: Gender, birth: Date, serial: u16)
    requires
        can_encode(birth, serial),
    ensures
        body(gender, birth, serial).len() == 10,
        all_decimal(body(gender, birth, serial)),
        gender_of(body(gender, birth, serial)) == Some(gender),
        birth_of(body(gender, birth, serial)) == Some(birth),
{
    let front = body(gender, birth, serial);
    let year = birth.year as int;
    lemma_year_digits(year);
    assert(1 <= birth.month <= 12 && 1 <= birth.day <= 31);
    let field = birth.month + month_offset(birth.year);
    assert(front[0] * 10 + front[1] == year % 100);
    assert(front[2] * 10 + front[3] == field);
    assert(field % 20 == birth.month);
    assert(century_of(field) == year / 100 * 100);
    assert(front[4] * 10 + front[5] == birth.day);
    assert(front[9] == ordinal(gender, serial) % 10);
}

/// Gender and date of birth can be read back from any row that starts with
/// the digits before the check digit.
proof fn lemma_body_reads_back(gender: Gender, birth: Date, serial: u16, digits: Seq<u8>)
    requires
        can_encode(birth, serial),
        digits.len() >= 10,
        digits.take(10) == body(gender, birth, serial),
    ensures
        all_decimal(digits.take(10)),
        gender_of(digits) == Some(gender),
        birth_of(digits) == Some(birth),
{
    let front = body(gender, birth, serial);
    lemma_body_digits(gender, birth, serial);
    assert forall|i: int| 0 <= i < 10 implies digits[i] == front[i] by {
        assert(digits.take(10)[i] == digits[i]);
    }
    assert(digits[0] == front[0] && digits[1] == front[1] && digits[2] == front[2]);
    assert(digits[3] == front[3] && digits[4] == front[4] && digits[5] == front[5]);
    assert(digits[6] == front[6] && digits[7] == front[7] && digits[8] == front[8]);
}

/// An encoded number decodes to what went into it, and its check digit is
/// right.
pub proof fn lemma_round_trip(gender: Gender, birth: Date, serial: u16)
    requires
        can_encode(birth, serial),
    ensures
        decoded(encoded(gender, birth, serial)) == Some(
            Decoded { gender: Some(gender), birth: Some(birth), valid: true },
        ),
{
    let front = body(gender, birth, serial);
    let digits = front.push(check_digit(front));
    assert(digits.take(10) =~= front);
    lemma_body_reads_back(gender, birth, serial, digits);
    assert(all_decimal(digits)) by {
        assert forall|i: int| 0 <= i < digits.len() implies #[trigger] digits[i] < 10 by {
            if i < 10 {
                assert(digits[i] == digits.take(10)[i]);
            }
        }
    }
    lemma_text_read_back(digits);
    lemma_weighted_sum_of_prefix(digits, weights(), 10);
}

/// A valid number with another digit in the place of its check digit is not
/// valid, and still tells the same gender and date of birth.
pub proof fn lemma_changed_check_digit(code: Seq<char>, digit: char)
    requires
        decoded(code) matches Some(told) && told.valid,
        is_digit(digit),
        digit != code[10],
    ensures
        decoded(code.update(10, digit)) matches Some(told) && !told.valid && told.gender
            == decoded(code)->0.gender && told.birth == decoded(code)->0.birth,
{
    let changed = code.update(10, digit);
    let before = digit_values(code);
    let after = digit_values(changed);
    assert(is_digit(code[10]));
    assert(all_digits(changed)) by {
        assert forall|i: int| 0 <= i < changed.len() implies is_digit(#[trigger] changed[i]) by {
            if i != 10 {
                assert(changed[i] == code[i]);
            }
        }
    }
    assert(after.take(10) =~= before.take(10));
    lemma_weighted_sum_of_prefix(before, weights(), 10);
    lemma_weighted_sum_of_prefix(after, weights(), 10);
    assert(after[10] != before[10]);
    assert(after[0] == before[0] && after[1] == before[1] && after[2] == before[2]);
    assert(after[3] == before[3] && after[4] == before[4] && after[5] == before[5]);
    assert(after[6] == before[6] && after[7] == before[7] && after[8] == before[8]);
}

/// Every weight is 1, 3, 7 or 9.
proof fn lemma_weights(at: int)
    requires
        0 <= at < 10,
    ensures
        weights().len() == 10,
        weights()[at] == 1 || weights()[at] == 3 || weights()[at] == 7 || weights()[at] == 9,
{
}

/// A weight times the difference of two digits is no multiple of ten.
proof fn lemma_weight_prime_to_ten(step: int, weight: int)
    requires
        -9 <= step <= 9,
        step != 0,
        weight == 1 || weight == 3 || weight == 7 || weight == 9,
    ensures
        (step * weight) % 10 != 0,
{
    if weight == 1 {
        assert(step * weight == step);
    } else if weight == 3 {
        assert(step * weight == 3 * step);
    } else if weight == 7 {
        assert(step * weight == 7 * step);
    } else {
        assert(step * weight == 9 * step);
    }
}

/// Sums that differ by no multiple of ten call for different check digits.
proof fn lemma_check_digit_moves(before: Seq<u8>, after: Seq<u8>, step: int)
    requires
        weighted_sum(after, weights()) == weighted_sum(before, weights()) + step,
        step % 10 != 0,
    ensures
        check_digit(after) != check_digit(before),
{
}

/// A valid number with another digit in the place of any one of its digits is
/// not valid: every weight is prime to ten, so the sum moves off its
/// remainder.
pub proof fn lemma_changed_digit(code: Seq<char>, at: int, digit: char)
    requires
        decoded(code) matches Some(told) && told.valid,
        0 <= at < 11,
        is_digit(digit),
        digit != code[at],
    ensures
        decoded(code.update(at, digit)) matches Some(told) && !told.valid,
{
    if at == 10 {
        lemma_changed_check_digit(code, digit);
    } else {
        let changed = code.update(at, digit);
        let before = digit_values(code);
        let after = digit_values(changed);
        assert(is_digit(code[at]));
        assert(all_digits(changed)) by {
            assert forall|i: int| 0 <= i < changed.len() implies is_digit(#[trigger] changed[i]) by {
                if i != at {
                    assert(changed[i] == code[i]);
                }
            }
        }
        assert(after =~= before.update(at, after[at]));
        lemma_weights(at);
        lemma_weighted_sum_update(before, weights(), at, after[at]);
        let step = after[at] - before[at];
        lemma_weight_prime_to_ten(step, weights()[at] as int);
        lemma_check_digit_moves(before, after, step * weights()[at]);
        assert(after[10] == before[10]);
    }
}

/// What every generated number is: the encoding of a gender and a date of
/// birth that are as the options ask, and of further fields that can be
/// encoded.
pub open spec fn drawn_for(options: GenOptions, code: Seq<char>) -> bool {
    exists|gender: Gender, birth: Date, serial: u16|
        {
            &&& #[trigger] encoded(gender, birth, serial) == code
            &&& can_encode(birth, serial)
            &&& options.gender matches Some(asked) ==> gender == asked
            &&& year_as_asked(options.year, birth)
        }
}

/// A generated number decodes, with the right check digit, to a gender and a
/// date of birth that are as the options ask.
pub proof fn lemma_drawn_meets(options: GenOptions, code: Seq<char>)
    requires
        drawn_for(options, code),
    ensures
        meets(options, decoded(code)),
{
    let (gender, birth, serial) = choose|gender: Gender, birth: Date, serial: u16|
        {
            &&& #[trigger] encoded(gender, birth, serial) == code
            &&& can_encode(birth, serial)
            &&& options.gender matches Some(asked) ==> gender == asked
            &&& year_as_asked(options.year, birth)
        };
    lemma_round_trip(gender, birth, serial);
}

/// The check digit for the first ten of `digits`.
fn check_digit_of(digits: &Vec<u8>) -> (check: u8)
    requires
        digits.len() >= 10,
    ensures
        check == check_digit(digits@),
        check < 10,
{
    let row: Vec<u8> = vec![1, 3, 7, 9, 1, 3, 7, 9, 1, 3];
    assert(row@ =~= weights());
    let rest = weighted_sum_of(digits, &row) % 10;
    ((10 - rest) % 10) as u8
}

/// Encodes a gender, a date of birth and a serial number; nothing where they
/// cannot be encoded.
pub fn encode(gender: Gender, birth: Date, serial: u16) -> (code: Option<String>)
    ensures
        match code {
            Some(code) => can_encode(birth, serial) && code@ == encoded(gender, birth, serial),
            None => !can_encode(birth, serial),
        },
{
    if !birth.check() || birth.year < FIRST_YEAR || birth.year > LAST_YEAR || serial > 4999 {
        return None;
    }
    let offset: u8 = if birth.year < 1900 {
        80
    } else if birth.year < 2000 {
        0
    } else if birth.year < 2100 {
        20
    } else if birth.year < 2200 {
        40
    } else {
        60
    };
    let month: u8 = birth.month + offset;
    let number: u16 = match gender {
        Gender::Male => 2 * serial + 1,
        Gender::Female => 2 * serial,
    };
    let mut digits: Vec<u8> = vec![
        (birth.year % 100 / 10) as u8,
        (birth.year % 10) as u8,
        month / 10,
        month % 10,
        birth.day / 10,
        birth.day % 10,
        (number / 1000) as u8,
        (number / 100 % 10) as u8,
        (number / 10 % 10) as u8,
        (number % 10) as u8,
    ];
    assert(digits@ =~= body(gender, birth, serial));
    let check = check_digit_of(&digits);
    digits.push(check);
    assert(all_decimal(digits@));
    Some(write_digits(&digits))
}

/// Reads a number field by field; nothing unless it is eleven digits.
pub fn decode(code: &str) -> (fields: Option<Decoded>)
    ensures
        fields == decoded(code@),
{
    match read_digits(code, 11) {
        None => None,
        Some(digits) => {
            assert(digits@[0] < 10 && digits@[1] < 10 && digits@[2] < 10 && digits@[3] < 10
                && digits@[4] < 10 && digits@[5] < 10);
            let gender = if digits[9] % 2 == 1 {
                Gender::Male
            } else {
                Gender::Female
            };
            let field: u8 = digits[2] * 10 + digits[3];
            let century: u16 = if field < 20 {
                1900
            } else if field < 40 {
                2000
            } else if field < 60 {
                2100
            } else if field < 80 {
                2200
            } else {
                1800
            };
            let birth = Date::new(
                century + (digits[0] * 10 + digits[1]) as u16,
                field % 20,
                digits[4] * 10 + digits[5],
            );
            let valid = digits[10] == check_digit_of(&digits);
            Some(Decoded { gender: Some(gender), birth, valid })
        },
    }
}

/// Generates a number for the options: for the gender and the year of birth
/// that are asked for, with the rest drawn from `rng`. Nothing comes back
/// only where the year is one that no number can encode.
pub fn generate(options: &GenOptions, rng: &mut StdRng) -> (code: Option<String>)
    ensures
        code is Some <==> feasible(*options),
        code matches Some(code) ==> drawn_for(*options, code@),
        code matches Some(code) ==> meets(*options, decoded(code@)),
{
    match options.year {
        Some(year) => if year < FIRST_YEAR || year > LAST_YEAR {
            return None;
        },
        None => {},
    }
    let birth = draw_birth(options.year, rng);
    let gender = draw_gender(options.gender, rng);
    let serial = draw_below(rng, 5000) as u16;
    proof {
        lemma_round_trip(gender, birth, serial);
    }
    encode(gender, birth, serial)
}

/// Parses a number into display fields; nothing unless it is eleven digits.
/// Gender and date of birth are told whether or not the check digit is right.
pub fn parse(code: &str) -> (fields: Option<ParsedFields>)
    ensures
        match fields {
            Some(fields) => decoded(code@) matches Some(told) && fields@ == rendered(code@, told),
            None => decoded(code@) is None,
        },
{
    match decode(code) {
        Some(told) => Some(render(code, &told)),
        None => None,
    }
}

} // verus!
