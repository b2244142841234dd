//! International Bank Account Numbers: generation, validation, display.
//!
//! A code is the country code, two check digits and the national part. It is
//! valid when the national part, followed by country code and check digits,
//! with every letter written as two decimal digits, is a number that leaves
//! the remainder 1 modulo 97.

pub mod catalog;

use crate::checksum::{
    all_alnum, all_digits, base36_value, decimal_value, digit_char, expand, expansion, is_alnum,
    is_alphanumeric, is_digit, is_upper, lemma_changed_digit_changes_residue,
    lemma_decimal_value_push2, lemma_expansion_concat, lemma_expansion_of_digits, mod97, residue,
};
use crate::iban::catalog::{
    bban_length, catalog, consistent, layout_of, layouts, lemma_catalog_consistent,
    lemma_layout_of_row, position, CharClass, Layout, LayoutView, Segment,
};
use crate::random::draw_below;
use rand::rngs::StdRng;
use vstd::prelude::*;
use vstd::string::*;

verus! {

/// Why no code could be generated.
#[derive(Clone, Copy, Debug, PartialEq, Eq, Structural)]
pub enum GenerationError {
    /// The catalog has no layout for the country that was asked for.
    UnsupportedCountry,
}

/// The national part in front, country code and check digits behind.
pub open spec fn rearranged(code: Seq<char>) -> Seq<char>
    recommends
        code.len() >= 4,
{
    code.subrange(4, code.len() as int) + code.subrange(0, 4)
}

/// MOD 97-10 validity of a whole code.
pub open spec fn is_valid_iban(code: Seq<char>) -> bool {
    &&& code.len() >= 4
    &&& all_alnum(code)
    &&& residue(rearranged(code)) == 1
}

/// The number that the two check digits write: 98 less the remainder of the
/// code with `00` in their place.
pub open spec fn check_value(country: Seq<char>, bban: Seq<char>) -> nat {
    (98 - residue(bban + country + seq!['0', '0'])) as nat
}

/// A number below 100 in two decimal digits.
pub open spec fn two_digits(n: nat) -> Seq<char> {
    seq![digit_char(n / 10), digit_char(n % 10)]
}

/// The code for a country and a national part.
pub open spec fn assembled(country: Seq<char>, bban: Seq<char>) -> Seq<char> {
    country + two_digits(check_value(country, bban)) + bban
}

/// What can be assembled into a code: a country code of two characters and a
/// national part, all letters and digits.
pub open spec fn can_assemble(country: Seq<char>, bban: Seq<char>) -> bool {
    &&& country.len() == 2
    &&& all_alnum(country)
    &&& all_alnum(bban)
}

/// Whether a character is of a class. Letters are upper case.
pub open spec fn in_class(c: char, class: CharClass) -> bool {
    match class {
        CharClass::Digits => is_digit(c),
        CharClass::Alphanumeric => is_digit(c) || is_upper(c),
    }
}

/// The class of the segment that position `at` of the national part falls in.
pub open spec fn class_at(segments: Seq<Segment>, at: int) -> CharClass
    decreases segments.len(),
{
    if segments.len() == 0 {
        CharClass::Digits
    } else if at >= bban_length(segments.drop_last()) {
        segments.last().class
    } else {
        class_at(segments.drop_last(), at)
    }
}

/// A national part fits the segments when it has their length and each of
/// its characters is of the class of the segment it falls in.
pub open spec fn fits(segments: Seq<Segment>, bban: Seq<char>) -> bool {
    &&& bban.len() == bban_length(segments)
    &&& forall|at: int| 0 <= at < bban.len() ==> in_class(#[trigger] bban[at], class_at(segments, at))
}

/// What a generated code is to its country's layout: of the declared length,
/// led by the country code, with a national part that fits the segments and
/// the check digits that make it valid.
pub open spec fn is_iban_of(layout: LayoutView, code: Seq<char>) -> bool {
    &&& code.len() == layout.length
    &&& code.len() >= 4
    &&& code.subrange(0, 2) == layout.country
    &&& fits(layout.segments, code.subrange(4, code.len() as int))
    &&& code == assembled(layout.country, code.subrange(4, code.len() as int))
    &&& is_valid_iban(code)
}

/// A national part that fits its segments holds letters and digits only.
pub proof fn lemma_fits_alnum(segments: Seq<Segment>, bban: Seq<char>)
    requires
        fits(segments, bban),
    ensures
        all_alnum(bban),
{
    assert forall|i: int| 0 <= i < bban.len() implies is_alnum(#[trigger] bban[i]) by {
        assert(in_class(bban[i], class_at(segments, i)));
    }
}

/// The check digits make the code valid: with them behind the national part
/// and the country code, the number leaves the remainder 1 modulo 97.
pub proof fn lemma_assembled_is_valid(country: Seq<char>, bban: Seq<char>)
    requires
        can_assemble(country, bban),
    ensures
        is_valid_iban(assembled(country, bban)),
        residue(bban + country + two_digits(check_value(country, bban))) == 1,
        2 <= check_value(country, bban) <= 98,
        assembled(country, bban).len() == bban.len() + 4,
        assembled(country, bban).subrange(0, 2) == country,
        assembled(country, bban).subrange(2, 4) == two_digits(check_value(country, bban)),
        assembled(country, bban).subrange(4, bban.len() as int + 4) == bban,
{
    let front = bban + country;
    let zeros = seq!['0', '0'];
    let check = check_value(country, bban);
    let pair = two_digits(check);
    let code = assembled(country, bban);
    let number = decimal_value(expansion(front));

    lemma_expansion_concat(front, zeros);
    lemma_expansion_of_digits(zeros);
    lemma_decimal_value_push2(expansion(front), '0', '0');
    assert(decimal_value(expansion(front + zeros)) == number * 100);
    assert(residue(front + zeros) == (number * 100) % 97);
    assert(check == 98 - (number * 100) % 97);

    assert(is_digit(pair[0]) && is_digit(pair[1]));
    assert(all_digits(pair));
    lemma_expansion_concat(front, pair);
    lemma_expansion_of_digits(pair);
    lemma_decimal_value_push2(expansion(front), pair[0], pair[1]);
    assert(base36_value(pair[0]) * 10 + base36_value(pair[1]) == check);
    assert(decimal_value(expansion(front + pair)) == number * 100 + check);
    assert((number * 100 + (98 - (number * 100) % 97)) % 97 == 1);

    assert(code.subrange(0, 2) =~= country);
    assert(code.subrange(2, 4) =~= pair);
    assert(code.subrange(4, bban.len() as int + 4) =~= bban);
    assert(rearranged(code) =~= front + pair);
    assert forall|i: int| 0 <= i < code.len() implies is_alnum(#[trigger] code[i]) by {
        if i < 2 {
            assert(code[i] == country[i]);
        } else if i < 4 {
            assert(code[i] == pair[i - 2]);
        } else {
            assert(code[i] == bban[i - 4]);
        }
    }
}

/// A valid code with another digit in the place of one of its digits is not
/// valid.
pub proof fn lemma_changed_digit_is_invalid(code: Seq<char>, at: int, digit: char)
    requires
        is_valid_iban(code),
        0 <= at < code.len(),
        is_digit(code[at]),
        is_digit(digit),
        digit != code[at],
    ensures
        !is_valid_iban(code.update(at, digit)),
{
    let changed = code.update(at, digit);
    let turned = rearranged(code);
    let place = if at >= 4 {
        at - 4
    } else {
        code.len() - 4 + at
    };
    assert(turned[place] == code[at]);
    assert(rearranged(changed) =~= turned.update(place, digit));
    lemma_changed_digit_changes_residue(turned, place, digit);
}

/// The country codes that a code can be generated for, in the catalog's
/// order.
pub fn supported_countries() -> (codes: Vec<&'static str>)
    ensures
        codes.len() == catalog().len(),
        forall|i: int| 0 <= i < codes.len() ==> (#[trigger] codes[i])@ == catalog()[i].country,
{
    crate::iban::catalog::supported_countries()
}

/// Whether `code` passes MOD 97-10. Any string may be given: one that is too
/// short to rearrange, or that holds anything but letters and digits, is not
/// valid.
pub fn validate_iban(code: &str) -> (valid: bool)
    ensures
        valid == is_valid_iban(code@),
{
    let n = code.unicode_len();
    if n < 4 || !is_alphanumeric(code) {
        return false;
    }
    let mut turned = String::from_str(code.substring_char(4, n));
    turned.append(code.substring_char(0, 4));
    assert(turned@ == rearranged(code@));
    assert(all_alnum(turned@)) by {
        assert forall|i: int| 0 <= i < turned@.len() implies is_alnum(#[trigger] turned@[i]) by {
            if i < n - 4 {
                assert(turned@[i] == code@[i + 4]);
            } else {
                assert(turned@[i] == code@[i - (n - 4)]);
            }
        }
    }
    let digits = expand(turned.as_str());
    mod97(digits.as_str()) == 1
}

/// Puts the check digits between a country code and a national part.
fn assemble(country: &str, bban: &str) -> (code: String)
    requires
        can_assemble(country@, bban@),
    ensures
        code@ == assembled(country@, bban@),
        is_valid_iban(code@),
{
    let mut zeroed = String::from_str(bban);
    zeroed.append(country);
    zeroed.append("00");
    proof {
        reveal_strlit("00");
        assert("00"@ =~= seq!['0', '0']);
        assert(all_alnum(zeroed@)) by {
            assert forall|i: int| 0 <= i < zeroed@.len() implies is_alnum(#[trigger] zeroed@[i]) by {
                if i < bban@.len() {
                    assert(zeroed@[i] == bban@[i]);
                } else if i < bban@.len() + 2 {
                    assert(zeroed@[i] == country@[i - bban@.len()]);
                }
            }
        }
        lemma_assembled_is_valid(country@, bban@);
    }
    let digits = expand(zeroed.as_str());
    let check: u32 = 98 - mod97(digits.as_str());
    let mut code = String::from_str(country);
    code.push(((check / 10) as u8 + 48) as char);
    code.push(((check % 10) as u8 + 48) as char);
    code.append(bban);
    assert(code@ =~= assembled(country@, bban@));
    code
}

/// The valid code for a country code and a national part. Nothing is
/// assembled from a country code that is not two letters or digits, or from a
/// national part that holds anything else.
pub fn assemble_iban(country: &str, bban: &str) -> (code: Option<String>)
    ensures
        match code {
            Some(code) => can_assemble(country@, bban@) && code@ == assembled(country@, bban@)
                && is_valid_iban(code@),
            None => !can_assemble(country@, bban@),
        },
{
    if country.unicode_len() != 2 || !is_alphanumeric(country) || !is_alphanumeric(bban) {
        return None;
    }
    Some(assemble(country, bban))
}

/// One character of a class, drawn from `rng`.
fn random_char(class: CharClass, rng: &mut StdRng) -> (c: char)
    ensures
        in_class(c, class),
{
    match class {
        CharClass::Digits => {
            let r: u32 = draw_below(rng, 10);
            (r as u8 + 48) as char
        },
        CharClass::Alphanumeric => {
            let r: u32 = draw_below(rng, 36);
            if r < 10 {
                (r as u8 + 48) as char
            } else {
                (r as u8 + 55) as char
            }
        },
    }
}

/// A national part for `layout`, each segment filled with characters of its
/// class that are drawn from `rng`.
pub fn random_bban(layout: &Layout, rng: &mut StdRng) -> (bban: String)
    ensures
        fits(layout@.segments, bban@),
{
    let mut bban = String::new();
    let mut k: usize = 0;
    while k < layout.segments.len()
        invariant
            k <= layout.segments.len(),
            fits(layout.segments@.take(k as int), bban@),
        decreases layout.segments.len() - k,
    {
        let segment = layout.segments[k];
        let ghost done = layout.segments@.take(k as int);
        let ghost next = layout.segments@.take(k + 1);
        let ghost start = bban@;
        assert(next.drop_last() =~= done);
        assert(next.last() == segment);
        let mut j: usize = 0;
        while j < segment.length
            invariant
                j <= segment.length,
                done == layout.segments@.take(k as int),
                next.drop_last() == done,
                next.last() == segment,
                next.len() > 0,
                fits(done, start),
                bban@.len() == start.len() + j,
                bban@.subrange(0, start.len() as int) == start,
                forall|at: int| start.len() <= at < bban@.len() ==> in_class(#[trigger] bban@[at], segment.class),
            decreases segment.length - j,
        {
            let c = random_char(segment.class, rng);
            let ghost before = bban@;
            bban.push(c);
            assert(bban@.subrange(0, start.len() as int) =~= before.subrange(0, start.len() as int));
            j += 1;
        }
        proof {
            assert forall|at: int| 0 <= at < bban@.len() implies in_class(#[trigger] bban@[at], class_at(next, at)) by {
                if at < start.len() {
                    assert(bban@[at] == bban@.subrange(0, start.len() as int)[at]);
                    assert(in_class(start[at], class_at(done, at)));
                }
            }
        }
        k += 1;
    }
    assert(layout.segments@.take(k as int) =~= layout.segments@);
    bban
}

/// Generates a valid code for `country`, or for a country drawn from the
/// catalog where none is named. It fails only for a country that the catalog
/// has no layout for.
pub fn generate_iban(country: Option<&str>, rng: &mut StdRng) -> (result: Result<
    String,
    GenerationError,
>)
    ensures
        result is Ok <==> (country matches Some(named) ==> layout_of(named@) is Some),
        match result {
            Ok(code) => {
                &&& is_valid_iban(code@)
                &&& residue(rearranged(code@)) == 1
                &&& layout_of(code@.subrange(0, 2)) matches Some(layout) && code@.len()
                    == layout.length && is_iban_of(layout, code@)
                &&& country matches Some(named) ==> code@.subrange(0, 2) == named@
            },
            Err(error) => {
                &&& error == GenerationError::UnsupportedCountry
                &&& country matches Some(named) && layout_of(named@) is None
            },
        },
{
    let table = layouts();
    proof {
        lemma_catalog_consistent();
    }
    let index: usize = match country {
        Some(named) => match position(&table, named) {
            Some(index) => index,
            None => {
                return Err(GenerationError::UnsupportedCountry);
            },
        },
        None => draw_below(rng, table.len() as u32) as usize,
    };
    let layout = &table[index];
    let bban = random_bban(layout, rng);
    proof {
        assert(layout@ == catalog()[index as int]);
        assert(consistent(catalog()[index as int]));
        lemma_layout_of_row(index as int);
        lemma_fits_alnum(layout@.segments, bban@);
        lemma_assembled_is_valid(layout@.country, bban@);
    }
    Ok(assemble(layout.country, bban.as_str()))
}

/// The length of a code of `n` characters once it is shown in blocks of four.
pub open spec fn grouped_len(n: nat) -> nat {
    if n == 0 {
        0
    } else {
        (n + (n - 1) / 4) as nat
    }
}

/// A code in blocks of four characters with one space between blocks; the
/// last block may be shorter.
pub open spec fn grouped(code: Seq<char>) -> Seq<char> {
    Seq::new(
        grouped_len(code.len()),
        |i: int|
            if i % 5 == 4 {
                ' '
            } else {
                code[i - i / 5]
            },
    )
}

/// A string with its spaces taken out.
pub open spec fn without_spaces(s: Seq<char>) -> Seq<char>
    decreases s.len(),
{
    if s.len() == 0 {
        s
    } else if s.last() == ' ' {
        without_spaces(s.drop_last())
    } else {
        without_spaces(s.drop_last()).push(s.last())
    }
}

/// One more character starts a new block where the last one is full, and
/// joins the last block where it is not.
pub proof fn lemma_grouped_push(s: Seq<char>, c: char)
    ensures
        grouped(s.push(c)) == if s.len() > 0 && s.len() % 4 == 0 {
            grouped(s).push(' ').push(c)
        } else {
            grouped(s).push(c)
        },
{
    let n = s.len() as int;
    let longer = grouped(s.push(c));
    if n > 0 && n % 4 == 0 {
        let expected = grouped(s).push(' ').push(c);
        assert(longer.len() == expected.len());
        assert forall|i: int| 0 <= i < longer.len() implies longer[i] == expected[i] by {
            if i < grouped(s).len() && i % 5 != 4 {
                assert(i - i / 5 < n);
            }
        }
        assert(longer =~= expected);
    } else {
        let expected = grouped(s).push(c);
        assert(longer.len() == expected.len());
        assert forall|i: int| 0 <= i < longer.len() implies longer[i] == expected[i] by {
            if i < grouped(s).len() && i % 5 != 4 {
                assert(i - i / 5 < n);
            }
        }
        assert(longer =~= expected);
    }
}

/// Taking the spaces out of a grouped code leaves the code, but for the
/// spaces that the code held itself.
pub proof fn lemma_ungrouped(code: Seq<char>)
    ensures
        without_spaces(grouped(code)) == without_spaces(code),
        !code.contains(' ') ==> without_spaces(grouped(code)) == code,
    decreases code.len(),
{
    if code.len() == 0 {
        assert(grouped(code) =~= code);
    } else {
        let s = code.drop_last();
        let c = code.last();
        assert(code =~= s.push(c));
        lemma_ungrouped(s);
        lemma_grouped_push(s, c);
        if s.len() > 0 && s.len() % 4 == 0 {
            let spaced = grouped(s).push(' ');
            assert(spaced.drop_last() =~= grouped(s));
            assert(spaced.push(c).drop_last() =~= spaced);
            assert(without_spaces(spaced) == without_spaces(grouped(s)));
        } else {
            assert(grouped(s).push(c).drop_last() =~= grouped(s));
        }
        if !code.contains(' ') {
            assert(c == code[code.len() - 1]);
            assert(!s.contains(' ')) by {
                if s.contains(' ') {
                    let k = choose|k: int| 0 <= k < s.len() && s[k] == ' ';
                    assert(code[k] == ' ');
                }
            }
        }
    }
}

/// Shows `code` in blocks of four characters. Nothing is validated.
pub fn format_iban(code: &str) -> (shown: String)
    ensures
        shown@ == grouped(code@),
{
    let mut shown = String::new();
    let mut filled: u8 = 0;
    for c in it: code.chars()
        invariant
            it.seq() == code@,
            filled <= 4,
            it.index() == 0 ==> filled == 0,
            it.index() > 0 ==> filled == (it.index() - 1) % 4 + 1,
            shown@ == grouped(it.seq().take(it.index() as int)),
    {
        proof {
            let before = it.seq().take(it.index() as int);
            assert(it.seq().take(it.index() + 1) =~= before.push(c));
            lemma_grouped_push(before, c);
        }
        if filled == 4 {
            shown.push(' ');
            filled = 0;
        }
        shown.push(c);
        filled += 1;
    }
    proof {
        assert(code@.take(code@.len() as int) =~= code@);
    }
    shown
}

} // verus!
