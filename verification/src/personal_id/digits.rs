//! Codes as rows of decimal digits, and the weighted sums that check digits
//! are made of.

use crate::checksum::{all_digits, base36_value, digit_char, is_digit};
use crate::text::to_chars;
use vstd::prelude::*;

verus! {

/// The digits that a string of digit characters shows.
pub open spec fn digit_values(code: Seq<char>) -> Seq<u8> {
    Seq::new(code.len(), |i: int| base36_value(code[i]) as u8)
}

/// The string that shows a row of digits.
pub open spec fn digit_text(digits: Seq<u8>) -> Seq<char> {
    Seq::new(digits.len(), |i: int| digit_char(digits[i] as nat))
}

/// Every entry is a decimal digit.
pub open spec fn all_decimal(digits: Seq<u8>) -> bool {
    forall|i: int| 0 <= i < digits.len() ==> #[trigger] digits[i] < 10
}

/// The sum of the leading digits, each times its weight. There are as many
/// terms as weights.
pub open spec fn weighted_sum(digits: Seq<u8>, weights: Seq<u8>) -> nat
    decreases weights.len(),
{
    if weights.len() == 0 || digits.len() < weights.len() {
        0
    } else {
        weighted_sum(digits, weights.drop_last()) + (digits[weights.len() - 1] * weights.last()) as nat
    }
}

/// Digits written out and read back are the same digits.
pub proof fn lemma_text_read_back(digits: Seq<u8>)
    requires
        all_decimal(digits),
    ensures
        digit_text(digits).len() == digits.len(),
        all_digits(digit_text(digits)),
        digit_values(digit_text(digits)) == digits,
{
    assert forall|i: int| 0 <= i < digits.len() implies is_digit(#[trigger] digit_text(digits)[i])
        && base36_value(digit_text(digits)[i]) == digits[i] by {
        assert(digits[i] < 10);
    }
    assert(digit_values(digit_text(digits)) =~= digits);
}

/// A weighted sum looks at no digit beyond its weights.
pub proof fn lemma_weighted_sum_of_prefix(digits: Seq<u8>, weights: Seq<u8>, n: int)
    requires
        weights.len() <= n <= digits.len(),
    ensures
        weighted_sum(digits.take(n), weights) == weighted_sum(digits, weights),
    decreases weights.len(),
{
    if weights.len() > 0 {
        lemma_weighted_sum_of_prefix(digits, weights.drop_last(), n);
    }
}

/// Another digit in one place changes a weighted sum by the difference of
/// the two digits times the weight of the place.
pub proof fn lemma_weighted_sum_update(digits: Seq<u8>, weights: Seq<u8>, at: int, digit: u8)
    requires
        0 <= at < digits.len(),
        weights.len() <= digits.len(),
    ensures
        weighted_sum(digits.update(at, digit), weights) == weighted_sum(digits, weights) + (
        if at < weights.len() {
            (digit - digits[at]) * weights[at]
        } else {
            0
        }),
    decreases weights.len(),
{
    if weights.len() > 0 {
        let shorter = weights.drop_last();
        let last = weights.len() - 1;
        lemma_weighted_sum_update(digits, shorter, at, digit);
        if at == last {
            let weight = weights.last() as int;
            let was = digits[at] as int;
            let now = digit as int;
            assert(now * weight == was * weight + (now - was) * weight) by (nonlinear_arith);
        } else if at < last {
            assert(shorter[at] == weights[at]);
        }
    }
}

/// The digits of `code`, where it is `length` digit characters and nothing
/// else.
pub fn read_digits(code: &str, length: usize) -> (digits: Option<Vec<u8>>)
    ensures
        match digits {
            Some(digits) => code@.len() == length && all_digits(code@) && digits@ == digit_values(
                code@,
            ) && all_decimal(digits@),
            None => !(code@.len() == length && all_digits(code@)),
        },
{
    let chars = to_chars(code);
    if chars.len() != length {
        return None;
    }
    let mut digits: Vec<u8> = Vec::new();
    let mut i: usize = 0;
    while i < chars.len()
        invariant
            i <= chars.len(),
            chars@ == code@,
            digits@.len() == i,
            forall|k: int| 0 <= k < i ==> is_digit(#[trigger] chars@[k]),
            forall|k: int| 0 <= k < i ==> #[trigger] digits@[k] == base36_value(chars@[k]) as u8,
        decreases chars.len() - i,
    {
        let c = chars[i];
        if !('0' <= c && c <= '9') {
            return None;
        }
        digits.push(c as u8 - 48);
        i += 1;
    }
    assert(digits@ =~= digit_values(code@));
    Some(digits)
}

/// The string that shows `digits`.
pub(crate) fn write_digits(digits: &Vec<u8>) -> (code: String)
    requires
        all_decimal(digits@),
    ensures
        code@ == digit_text(digits@),
{
    let mut code = String::new();
    let mut i: usize = 0;
    while i < digits.len()
        invariant
            i <= digits.len(),
            all_decimal(digits@),
            code@ == digit_text(digits@.take(i as int)),
        decreases digits.len() - i,
    {
        assert(digits@[i as int] < 10);
        code.push((digits[i] + 48) as char);
        assert(code@ =~= digit_text(digits@.take(i + 1)));
        i += 1;
    }
    assert(digits@.take(i as int) =~= digits@);
    code
}

/// The weighted sum of the leading digits.
pub(crate) fn weighted_sum_of(digits: &Vec<u8>, weights: &Vec<u8>) -> (sum: u32)
    requires
        weights.len() <= digits.len(),
        weights.len() <= 64,
    ensures
        sum == weighted_sum(digits@, weights@),
{
    let mut sum: u32 = 0;
    let mut i: usize = 0;
    while i < weights.len()
        invariant
            i <= weights.len(),
            weights.len() <= digits.len(),
            weights.len() <= 64,
            sum <= i * 65025,
            sum == weighted_sum(digits@, weights@.take(i as int)),
        decreases weights.len() - i,
    {
        proof {
            assert(weights@.take(i + 1).drop_last() =~= weights@.take(i as int));
            assert(weights@.take(i + 1).last() == weights@[i as int]);
            assert(digits@[i as int] * weights@[i as int] <= 65025) by (nonlinear_arith)
                requires
                    digits@[i as int] <= 255,
                    weights@[i as int] <= 255,
            ;
        }
        sum += digits[i] as u32 * weights[i] as u32;
        i += 1;
    }
    assert(weights@.take(i as int) =~= weights@);
    sum
}

} // verus!
