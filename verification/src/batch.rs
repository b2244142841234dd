//! Batches of generated codes, row by row as a result grid shows them, and
//! the text of a whole grid, one code to a line.

use crate::checksum::{all_digits, decimal_value, is_digit, lemma_decimal_value_concat, pow10};
use crate::iban::catalog::layout_of;
use crate::iban::{format_iban, generate_iban, grouped, is_iban_of, is_valid_iban, validate_iban};
use crate::personal_id::{meets, scheme_of, GenOptions, ParsedFields, ParsedView, Registry};
use rand::rngs::StdRng;
use vstd::prelude::*;
use vstd::string::*;

verus! {

/// One generated IBAN: as it is, in blocks of four, and whether it is valid.
#[derive(Clone, Debug, PartialEq, Eq)]
pub struct IbanRow {
    pub raw: String,
    pub formatted: String,
    pub valid: bool,
}

impl IbanRow {
    /// What holds of every row of a batch: the code is a valid one of a
    /// country of the catalog, the row says so, and the formatted code is the
    /// code in blocks of four.
    pub open spec fn sound(&self) -> bool {
        &&& self.valid
        &&& is_valid_iban(self.raw@)
        &&& self.formatted@ == grouped(self.raw@)
        &&& self.raw@.len() >= 4
        &&& layout_of(self.raw@.subrange(0, 2)) matches Some(layout) && is_iban_of(layout, self.raw@)
    }
}

/// One generated personal identification number with its parsed fields; a
/// field that could not be read is empty.
#[derive(Clone, Debug, PartialEq, Eq)]
pub struct IdRow {
    pub code: String,
    pub gender: String,
    pub dob: String,
    pub valid: bool,
}

impl IdRow {
    /// Whether the row shows the parsed fields.
    pub open spec fn shows(&self, fields: ParsedView) -> bool {
        &&& self.code@ == fields.code
        &&& self.gender@ == match fields.gender {
            Some(word) => word,
            None => Seq::<char>::empty(),
        }
        &&& self.dob@ == match fields.dob {
            Some(text) => text,
            None => Seq::<char>::empty(),
        }
        &&& self.valid == fields.valid
    }

    /// The row for parsed fields.
    pub fn new(fields: ParsedFields) -> (row: IdRow)
        ensures
            row.shows(fields@),
    {
        let ParsedFields { code, gender, dob, valid } = fields;
        let gender = match gender {
            Some(word) => word,
            None => String::new(),
        };
        let dob = match dob {
            Some(text) => text,
            None => String::new(),
        };
        IdRow { code, gender, dob, valid }
    }
}

/// `count` codes for `country`, or each for a country drawn anew where none
/// is named. A country without layout gives no row.
pub fn iban_rows(country: Option<&str>, count: u32, rng: &mut StdRng) -> (rows: Vec<IbanRow>)
    ensures
        rows.len() == (if country matches Some(named) && layout_of(named@) is None {
            0
        } else {
            count as int
        }),
        forall|i: int| 0 <= i < rows.len() ==> (#[trigger] rows[i]).sound(),
        forall|i: int|
            0 <= i < rows.len() ==> (country matches Some(named) ==> (#[trigger] rows[i]).raw@.subrange(
                0,
                2,
            ) == named@),
{
    let mut rows: Vec<IbanRow> = Vec::new();
    let mut made: u32 = 0;
    while made < count
        invariant
            made <= count,
            rows.len() == (if country matches Some(named) && layout_of(named@) is None {
                0
            } else {
                made as int
            }),
            forall|i: int| 0 <= i < rows.len() ==> (#[trigger] rows[i]).sound(),
            forall|i: int|
                0 <= i < rows.len() ==> (country matches Some(named) ==> (#[trigger] rows[i]).raw@.subrange(
                    0,
                    2,
                ) == named@),
        decreases count - made,
    {
        match generate_iban(country, rng) {
            Ok(code) => {
                let valid = validate_iban(code.as_str());
                let formatted = format_iban(code.as_str());
                rows.push(IbanRow { raw: code, formatted, valid });
            },
            Err(_) => {},
        }
        made += 1;
    }
    rows
}

/// The year that a form field holds: decimal digits, with or without a plus
/// sign in front, that write a number of at most sixteen bits. Anything else
/// holds no year.
pub open spec fn year_written(text: Seq<char>) -> Option<u16> {
    let digits = if text.len() > 0 && text[0] == '+' {
        text.skip(1)
    } else {
        text
    };
    if digits.len() > 0 && all_digits(digits) && decimal_value(digits) <= u16::MAX {
        Some(decimal_value(digits) as u16)
    } else {
        None
    }
}

/// A number is at least what its leading digits write.
proof fn lemma_leading_digits_bound(digits: Seq<char>, n: int)
    requires
        0 <= n <= digits.len(),
    ensures
        decimal_value(digits.take(n)) <= decimal_value(digits),
{
    let front = digits.take(n);
    let back = digits.skip(n);
    assert(digits =~= front + back);
    lemma_decimal_value_concat(front, back);
    lemma_pow10_positive(back.len());
    assert(decimal_value(front) * pow10(back.len()) >= decimal_value(front)) by (nonlinear_arith)
        requires
            pow10(back.len()) >= 1,
    ;
}

/// No power of ten is zero.
proof fn lemma_pow10_positive(n: nat)
    ensures
        pow10(n) >= 1,
    decreases n,
{
    if n > 0 {
        lemma_pow10_positive((n - 1) as nat);
    }
}

/// Reads the year of a form field; nothing where the field holds none.
pub fn year_from_text(text: &str) -> (year: Option<u16>)
    ensures
        year == year_written(text@),
{
    let chars = crate::text::to_chars(text);
    let start: usize = if chars.len() > 0 && chars[0] == '+' {
        1
    } else {
        0
    };
    let ghost digits = if start == 1 {
        text@.skip(1)
    } else {
        text@
    };
    assert(digits =~= chars@.skip(start as int));
    if chars.len() == start {
        return None;
    }
    let mut value: u32 = 0;
    let mut i: usize = start;
    while i < chars.len()
        invariant
            start <= i <= chars.len(),
            chars@ == text@,
            start == (if text@.len() > 0 && text@[0] == '+' {
                1int
            } else {
                0int
            }),
            digits == chars@.skip(start as int),
            digits == (if start == 1 {
                text@.skip(1)
            } else {
                text@
            }),
            all_digits(digits.take(i - start)),
            value == decimal_value(digits.take(i - start)),
            value <= u16::MAX,
        decreases chars.len() - i,
    {
        let c = chars[i];
        let ghost longer = digits.take(i - start + 1);
        proof {
            assert(longer.drop_last() =~= digits.take(i - start));
            assert(longer.last() == c);
        }
        if !('0' <= c && c <= '9') {
            assert(!is_digit(digits[i - start]));
            return None;
        }
        value = value * 10 + (c as u32 - 48);
        if value > 65535 {
            proof {
                assert(value == decimal_value(longer));
                lemma_leading_digits_bound(digits, i - start + 1);
            }
            return None;
        }
        i += 1;
    }
    assert(digits.take(i - start) =~= digits);
    Some(value as u16)
}

/// `count` numbers of `country` for the options, each with its parsed
/// fields. There is no row where no scheme is registered for the country or
/// where the options ask for what its numbers cannot encode.
pub fn id_rows(
    registry: &Registry,
    country: &str,
    options: &GenOptions,
    count: u32,
    rng: &mut StdRng,
) -> (rows: Vec<IdRow>)
    ensures
        match scheme_of(country@) {
            Some(scheme) => {
                &&& rows.len() == (if scheme.feasible(*options) {
                    count as int
                } else {
                    0
                })
                &&& forall|i: int|
                    0 <= i < rows.len() ==> {
                        &&& (#[trigger] rows[i]).valid
                        &&& scheme.drawn_for(*options, rows[i].code@)
                        &&& meets(*options, scheme.decoded(rows[i].code@))
                        &&& scheme.parsed(rows[i].code@) matches Some(fields) && rows[i].shows(fields)
                    }
            },
            None => rows.len() == 0,
        },
{
    let mut rows: Vec<IdRow> = Vec::new();
    let mut made: u32 = 0;
    while made < count
        invariant
            made <= count,
            match scheme_of(country@) {
                Some(scheme) => {
                    &&& rows.len() == (if scheme.feasible(*options) {
                        made as int
                    } else {
                        0
                    })
                    &&& forall|i: int|
                        0 <= i < rows.len() ==> {
                            &&& (#[trigger] rows[i]).valid
                            &&& scheme.drawn_for(*options, rows[i].code@)
                            &&& meets(*options, scheme.decoded(rows[i].code@))
                            &&& scheme.parsed(rows[i].code@) matches Some(fields) && rows[i].shows(
                                fields,
                            )
                        }
                },
                None => rows.len() == 0,
            },
        decreases count - made,
    {
        match registry.generate(country, options, rng) {
            Some(code) => match registry.parse(country, code.as_str()) {
                Some(fields) => {
                    rows.push(IdRow::new(fields));
                },
                None => {},
            },
            None => {},
        }
        made += 1;
    }
    rows
}

/// Lines joined by line feeds, with none behind the last.
pub open spec fn joined(lines: Seq<Seq<char>>) -> Seq<char>
    decreases lines.len(),
{
    if lines.len() == 0 {
        Seq::<char>::empty()
    } else if lines.len() == 1 {
        lines[0]
    } else {
        joined(lines.drop_last()) + seq!['\n'] + lines.last()
    }
}

/// The codes of the rows as a grid shows them: in blocks of four or as they
/// are.
pub open spec fn iban_texts(rows: Seq<IbanRow>, spaces: bool) -> Seq<Seq<char>> {
    Seq::new(
        rows.len(),
        |i: int|
            if spaces {
                rows[i].formatted@
            } else {
                rows[i].raw@
            },
    )
}

/// The numbers of the rows.
pub open spec fn id_texts(rows: Seq<IdRow>) -> Seq<Seq<char>> {
    Seq::new(rows.len(), |i: int| rows[i].code@)
}

/// The codes of all rows, one to a line.
pub fn iban_lines(rows: &Vec<IbanRow>, spaces: bool) -> (text: String)
    ensures
        text@ == joined(iban_texts(rows@, spaces)),
{
    let ghost lines = iban_texts(rows@, spaces);
    let mut text = String::new();
    let mut i: usize = 0;
    while i < rows.len()
        invariant
            i <= rows.len(),
            lines == iban_texts(rows@, spaces),
            text@ == joined(lines.take(i as int)),
        decreases rows.len() - i,
    {
        proof {
            assert(lines.take(i + 1).drop_last() =~= lines.take(i as int));
            assert(lines.take(i + 1).last() == lines[i as int]);
        }
        if i > 0 {
            text.push('\n');
        }
        if spaces {
            text.append(rows[i].formatted.as_str());
        } else {
            text.append(rows[i].raw.as_str());
        }
        assert(text@ =~= joined(lines.take(i + 1)));
        i += 1;
    }
    assert(lines.take(i as int) =~= lines);
    text
}

/// The numbers of all rows, one to a line.
pub fn id_lines(rows: &Vec<IdRow>) -> (text: String)
    ensures
        text@ == joined(id_texts(rows@)),
{
    let ghost lines = id_texts(rows@);
    let mut text = String::new();
    let mut i: usize = 0;
    while i < rows.len()
        invariant
            i <= rows.len(),
            lines == id_texts(rows@),
            text@ == joined(lines.take(i as int)),
        decreases rows.len() - i,
    {
        proof {
            assert(lines.take(i + 1).drop_last() =~= lines.take(i as int));
            assert(lines.take(i + 1).last() == lines[i as int]);
        }
        if i > 0 {
            text.push('\n');
        }
        text.append(rows[i].code.as_str());
        assert(text@ =~= joined(lines.take(i + 1)));
        i += 1;
    }
    assert(lines.take(i as int) =~= lines);
    text
}

} // verus!
