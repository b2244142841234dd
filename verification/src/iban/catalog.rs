//! The account-number layouts of the countries that take part in IBAN, as the
//! registry lists them: the total length of a code, and the fields of the
//! national part in order.

use crate::text::same_text;
use vstd::prelude::*;

verus! {

/// The alphabet that a field draws its characters from.
#[derive(Clone, Copy, Debug, PartialEq, Eq, Structural)]
pub enum CharClass {
    /// `0`..`9`.
    Digits,
    /// `0`..`9` and `A`..`Z`. A field that the registry gives to letters alone
    /// is listed under this class too.
    Alphanumeric,
}

/// What a field of the national part identifies.
#[derive(Clone, Copy, Debug, PartialEq, Eq, Structural)]
pub enum Field {
    BankCode,
    BranchCode,
    AccountNumber,
    NationalCheck,
}

/// One field of the national part.
#[derive(Clone, Copy, Debug, PartialEq, Eq, Structural)]
pub struct Segment {
    pub field: Field,
    pub length: usize,
    pub class: CharClass,
}

/// The layout of one country's codes.
#[derive(Clone, Debug, PartialEq, Eq)]
pub struct Layout {
    /// ISO 3166-1 alpha-2 code.
    pub country: &'static str,
    /// Length of the whole code: country, check digits and national part.
    pub length: usize,
    /// The fields of the national part, left to right.
    pub segments: Vec<Segment>,
}

/// A layout as contracts see it.
pub struct LayoutView {
    pub country: Seq<char>,
    pub length: nat,
    pub segments: Seq<Segment>,
}

impl View for Layout {
    type V = LayoutView;

    open spec fn view(&self) -> LayoutView {
        LayoutView { country: self.country@, length: self.length as nat, segments: self.segments@ }
    }
}

/// The length of the national part that the segments describe.
pub open spec fn bban_length(segments: Seq<Segment>) -> nat
    decreases segments.len(),
{
    if segments.len() == 0 {
        0
    } else {
        bban_length(segments.drop_last()) + segments.last().length as nat
    }
}

/// A field of digits.
pub open spec fn digits(field: Field, length: usize) -> Segment {
    Segment { field, length, class: CharClass::Digits }
}

/// A field of letters and digits.
pub open spec fn alnum(field: Field, length: usize) -> Segment {
    Segment { field, length, class: CharClass::Alphanumeric }
}

/// One row of the table.
pub open spec fn row(country: Seq<char>, length: nat, segments: Seq<Segment>) -> LayoutView {
    LayoutView { country, length, segments }
}

/// The table. Rows are in the order of their country codes.
#[verifier::opaque]
pub open spec fn catalog() -> Seq<LayoutView> {
    seq![
        row("AT"@, 20, seq![digits(Field::BankCode, 5), digits(Field::AccountNumber, 11)]),
        row(
            "BE"@,
            16,
            seq![
                digits(Field::BankCode, 3),
                digits(Field::AccountNumber, 7),
                digits(Field::NationalCheck, 2),
            ],
        ),
        row(
            "BG"@,
            22,
            seq![
                alnum(Field::BankCode, 4),
                digits(Field::BranchCode, 4),
                digits(Field::AccountNumber, 2),
                alnum(Field::AccountNumber, 8),
            ],
        ),
        row("CH"@, 21, seq![digits(Field::BankCode, 5), alnum(Field::AccountNumber, 12)]),
        row(
            "CY"@,
            28,
            seq![
                digits(Field::BankCode, 3),
                digits(Field::BranchCode, 5),
                alnum(Field::AccountNumber, 16),
            ],
        ),
        row(
            "CZ"@,
            24,
            seq![
                digits(Field::BankCode, 4),
                digits(Field::AccountNumber, 6),
                digits(Field::AccountNumber, 10),
            ],
        ),
        row("DE"@, 22, seq![digits(Field::BankCode, 8), digits(Field::AccountNumber, 10)]),
        row(
            "DK"@,
            18,
            seq![
                digits(Field::BankCode, 4),
                digits(Field::AccountNumber, 9),
                digits(Field::NationalCheck, 1),
            ],
        ),
        row(
            "EE"@,
            20,
            seq![
                digits(Field::BankCode, 2),
                digits(Field::BranchCode, 2),
                digits(Field::AccountNumber, 11),
                digits(Field::NationalCheck, 1),
            ],
        ),
        row(
            "ES"@,
            24,
            seq![
                digits(Field::BankCode, 4),
                digits(Field::BranchCode, 4),
                digits(Field::NationalCheck, 2),
                digits(Field::AccountNumber, 10),
            ],
        ),
        row(
            "FI"@,
            18,
            seq![
                digits(Field::BankCode, 6),
                digits(Field::AccountNumber, 7),
                digits(Field::NationalCheck, 1),
            ],
        ),
        row(
            "FR"@,
            27,
            seq![
                digits(Field::BankCode, 5),
                digits(Field::BranchCode, 5),
                alnum(Field::AccountNumber, 11),
                digits(Field::NationalCheck, 2),
            ],
        ),
        row(
            "GB"@,
            22,
            seq![
                alnum(Field::BankCode, 4),
                digits(Field::BranchCode, 6),
                digits(Field::AccountNumber, 8),
            ],
        ),
        row(
            "GR"@,
            27,
            seq![
                digits(Field::BankCode, 3),
                digits(Field::BranchCode, 4),
                alnum(Field::AccountNumber, 16),
            ],
        ),
        row("HR"@, 21, seq![digits(Field::BankCode, 7), digits(Field::AccountNumber, 10)]),
        row(
            "HU"@,
            28,
            seq![
                digits(Field::BankCode, 3),
                digits(Field::BranchCode, 4),
                digits(Field::NationalCheck, 1),
                digits(Field::AccountNumber, 15),
                digits(Field::NationalCheck, 1),
            ],
        ),
        row(
            "IE"@,
            22,
            seq![
                alnum(Field::BankCode, 4),
                digits(Field::BranchCode, 6),
                digits(Field::AccountNumber, 8),
            ],
        ),
        row(
            "IS"@,
            26,
            seq![
                digits(Field::BankCode, 2),
                digits(Field::BranchCode, 2),
                digits(Field::AccountNumber, 2),
                digits(Field::AccountNumber, 6),
                digits(Field::AccountNumber, 10),
            ],
        ),
        row(
            "IT"@,
            27,
            seq![
                alnum(Field::NationalCheck, 1),
                digits(Field::BankCode, 5),
                digits(Field::BranchCode, 5),
                alnum(Field::AccountNumber, 12),
            ],
        ),
        row("LI"@, 21, seq![digits(Field::BankCode, 5), alnum(Field::AccountNumber, 12)]),
        row("LT"@, 20, seq![digits(Field::BankCode, 5), digits(Field::AccountNumber, 11)]),
        row("LU"@, 20, seq![digits(Field::BankCode, 3), alnum(Field::AccountNumber, 13)]),
        row("LV"@, 21, seq![alnum(Field::BankCode, 4), alnum(Field::AccountNumber, 13)]),
        row(
            "MT"@,
            31,
            seq![
                alnum(Field::BankCode, 4),
                digits(Field::BranchCode, 5),
                alnum(Field::AccountNumber, 18),
            ],
        ),
        row("NL"@, 18, seq![alnum(Field::BankCode, 4), digits(Field::AccountNumber, 10)]),
        row(
            "NO"@,
            15,
            seq![
                digits(Field::BankCode, 4),
                digits(Field::AccountNumber, 6),
                digits(Field::NationalCheck, 1),
            ],
        ),
        row(
            "PL"@,
            28,
            seq![
                digits(Field::BankCode, 3),
                digits(Field::BranchCode, 4),
                digits(Field::NationalCheck, 1),
                digits(Field::AccountNumber, 16),
            ],
        ),
        row(
            "PT"@,
            25,
            seq![
                digits(Field::BankCode, 4),
                digits(Field::BranchCode, 4),
                digits(Field::AccountNumber, 11),
                digits(Field::NationalCheck, 2),
            ],
        ),
        row("RO"@, 24, seq![alnum(Field::BankCode, 4), alnum(Field::AccountNumber, 16)]),
        row(
            "SE"@,
            24,
            seq![
                digits(Field::BankCode, 3),
                digits(Field::AccountNumber, 16),
                digits(Field::NationalCheck, 1),
            ],
        ),
        row(
            "SI"@,
            19,
            seq![
                digits(Field::BankCode, 2),
                digits(Field::BranchCode, 3),
                digits(Field::AccountNumber, 8),
                digits(Field::NationalCheck, 2),
            ],
        ),
        row(
            "SK"@,
            24,
            seq![
                digits(Field::BankCode, 4),
                digits(Field::AccountNumber, 6),
                digits(Field::AccountNumber, 10),
            ],
        ),
    ]
}

/// A layout is consistent when its country code is two upper-case letters and
/// its declared length is that of country, check digits and national part.
pub open spec fn consistent(layout: LayoutView) -> bool {
    &&& layout.country.len() == 2
    &&& 'A' <= layout.country[0] <= 'Z'
    &&& 'A' <= layout.country[1] <= 'Z'
    &&& layout.length == 4 + bban_length(layout.segments)
}

/// A number that orders country codes as the alphabet does.
pub open spec fn country_key(country: Seq<char>) -> int {
    country[0] as int * 0x200000 + country[1] as int
}

/// Every row of the table is consistent, and each row's country code comes
/// after that of the row before it.
pub proof fn lemma_catalog_consistent()
    ensures
        catalog().len() == 32,
        forall|i: int| 0 <= i < catalog().len() ==> consistent(#[trigger] catalog()[i]),
        forall|i: int|
            0 <= i < catalog().len() - 1 ==> country_key(#[trigger] catalog()[i].country)
                < country_key(catalog()[i + 1].country),
{
    reveal(catalog);
    reveal_strlit("AT");
    reveal_strlit("BE");
    reveal_strlit("BG");
    reveal_strlit("CH");
    reveal_strlit("CY");
    reveal_strlit("CZ");
    reveal_strlit("DE");
    reveal_strlit("DK");
    reveal_strlit("EE");
    reveal_strlit("ES");
    reveal_strlit("FI");
    reveal_strlit("FR");
    reveal_strlit("GB");
    reveal_strlit("GR");
    reveal_strlit("HR");
    reveal_strlit("HU");
    reveal_strlit("IE");
    reveal_strlit("IS");
    reveal_strlit("IT");
    reveal_strlit("LI");
    reveal_strlit("LT");
    reveal_strlit("LU");
    reveal_strlit("LV");
    reveal_strlit("MT");
    reveal_strlit("NL");
    reveal_strlit("NO");
    reveal_strlit("PL");
    reveal_strlit("PT");
    reveal_strlit("RO");
    reveal_strlit("SE");
    reveal_strlit("SI");
    reveal_strlit("SK");
    reveal_with_fuel(bban_length, 6);
}

/// Country codes grow along the table, so no two rows share one.
pub proof fn lemma_catalog_ordered(i: int, j: int)
    requires
        0 <= i < j < catalog().len(),
    ensures
        country_key(catalog()[i].country) < country_key(catalog()[j].country),
        catalog()[i].country != catalog()[j].country,
    decreases j - i,
{
    lemma_catalog_consistent();
    if i + 1 < j {
        lemma_catalog_ordered(i, j - 1);
    }
}

/// Whether the table has a row for `country`.
pub open spec fn listed(country: Seq<char>) -> bool {
    exists|i: int| 0 <= i < catalog().len() && #[trigger] catalog()[i].country == country
}

/// The row of the table for `country`, if it has one.
pub open spec fn layout_of(country: Seq<char>) -> Option<LayoutView> {
    if listed(country) {
        Some(catalog()[choose|i: int| 0 <= i < catalog().len() && #[trigger] catalog()[i].country == country])
    } else {
        None
    }
}

/// Looking up the country of a row finds that row.
pub proof fn lemma_layout_of_row(i: int)
    requires
        0 <= i < catalog().len(),
    ensures
        layout_of(catalog()[i].country) == Some(catalog()[i]),
{
    let country = catalog()[i].country;
    assert(listed(country));
    let k = choose|k: int| 0 <= k < catalog().len() && #[trigger] catalog()[k].country == country;
    if k < i {
        lemma_catalog_ordered(k, i);
    } else if i < k {
        lemma_catalog_ordered(i, k);
    }
}

impl Segment {
    /// A field of digits.
    pub fn digits(field: Field, length: usize) -> (s: Segment)
        ensures
            s == digits(field, length),
    {
        Segment { field, length, class: CharClass::Digits }
    }

    /// A field of letters and digits.
    pub fn alnum(field: Field, length: usize) -> (s: Segment)
        ensures
            s == alnum(field, length),
    {
        Segment { field, length, class: CharClass::Alphanumeric }
    }
}

/// The table, row for row.
pub fn layouts() -> (table: Vec<Layout>)
    ensures
        table.len() == catalog().len(),
        forall|i: int| 0 <= i < table.len() ==> (#[trigger] table[i])@ =~~= catalog()[i],
{
    proof {
        reveal(catalog);
    }
    let mut table: Vec<Layout> = Vec::new();
    table.push(
        Layout {
            country: "AT",
            length: 20,
            segments: vec![
                Segment::digits(Field::BankCode, 5),
                Segment::digits(Field::AccountNumber, 11),
            ],
        },
    );
    table.push(
        Layout {
            country: "BE",
            length: 16,
            segments: vec![
                Segment::digits(Field::BankCode, 3),
                Segment::digits(Field::AccountNumber, 7),
                Segment::digits(Field::NationalCheck, 2),
            ],
        },
    );
    table.push(
        Layout {
            country: "BG",
            length: 22,
            segments: vec![
                Segment::alnum(Field::BankCode, 4),
                Segment::digits(Field::BranchCode, 4),
                Segment::digits(Field::AccountNumber, 2),
                Segment::alnum(Field::AccountNumber, 8),
            ],
        },
    );
    table.push(
        Layout {
            country: "CH",
            length: 21,
            segments: vec![
                Segment::digits(Field::BankCode, 5),
                Segment::alnum(Field::AccountNumber, 12),
            ],
        },
    );
    table.push(
        Layout {
            country: "CY",
            length: 28,
            segments: vec![
                Segment::digits(Field::BankCode, 3),
                Segment::digits(Field::BranchCode, 5),
                Segment::alnum(Field::AccountNumber, 16),
            ],
        },
    );
    table.push(
        Layout {
            country: "CZ",
            length: 24,
            segments: vec![
                Segment::digits(Field::BankCode, 4),
                Segment::digits(Field::AccountNumber, 6),
                Segment::digits(Field::AccountNumber, 10),
            ],
        },
    );
    table.push(
        Layout {
            country: "DE",
            length: 22,
            segments: vec![
                Segment::digits(Field::BankCode, 8),
                Segment::digits(Field::AccountNumber, 10),
            ],
        },
    );
    table.push(
        Layout {
            country: "DK",
            length: 18,
            segments: vec![
                Segment::digits(Field::BankCode, 4),
                Segment::digits(Field::AccountNumber, 9),
                Segment::digits(Field::NationalCheck, 1),
            ],
        },
    );
    table.push(
        Layout {
            country: "EE",
            length: 20,
            segments: vec![
                Segment::digits(Field::BankCode, 2),
                Segment::digits(Field::BranchCode, 2),
                Segment::digits(Field::AccountNumber, 11),
                Segment::digits(Field::NationalCheck, 1),
            ],
        },
    );
    table.push(
        Layout {
            country: "ES",
            length: 24,
            segments: vec![
                Segment::digits(Field::BankCode, 4),
                Segment::digits(Field::BranchCode, 4),
                Segment::digits(Field::NationalCheck, 2),
                Segment::digits(Field::AccountNumber, 10),
            ],
        },
    );
    table.push(
        Layout {
            country: "FI",
            length: 18,
            segments: vec![
                Segment::digits(Field::BankCode, 6),
                Segment::digits(Field::AccountNumber, 7),
                Segment::digits(Field::NationalCheck, 1),
            ],
        },
    );
    table.push(
        Layout {
            country: "FR",
            length: 27,
            segments: vec![
                Segment::digits(Field::BankCode, 5),
                Segment::digits(Field::BranchCode, 5),
                Segment::alnum(Field::AccountNumber, 11),
                Segment::digits(Field::NationalCheck, 2),
            ],
        },
    );
    table.push(
        Layout {
            country: "GB",
            length: 22,
            segments: vec![
                Segment::alnum(Field::BankCode, 4),
                Segment::digits(Field::BranchCode, 6),
                Segment::digits(Field::AccountNumber, 8),
            ],
        },
    );
    table.push(
        Layout {
            country: "GR",
            length: 27,
            segments: vec![
                Segment::digits(Field::BankCode, 3),
                Segment::digits(Field::BranchCode, 4),
                Segment::alnum(Field::AccountNumber, 16),
            ],
        },
    );
    table.push(
        Layout {
            country: "HR",
            length: 21,
            segments: vec![
                Segment::digits(Field::BankCode, 7),
                Segment::digits(Field::AccountNumber, 10),
            ],
        },
    );
    table.push(
        Layout {
            country: "HU",
            length: 28,
            segments: vec![
                Segment::digits(Field::BankCode, 3),
                Segment::digits(Field::BranchCode, 4),
                Segment::digits(Field::NationalCheck, 1),
                Segment::digits(Field::AccountNumber, 15),
                Segment::digits(Field::NationalCheck, 1),
            ],
        },
    );
    table.push(
        Layout {
            country: "IE",
            length: 22,
            segments: vec![
                Segment::alnum(Field::BankCode, 4),
                Segment::digits(Field::BranchCode, 6),
                Segment::digits(Field::AccountNumber, 8),
            ],
        },
    );
    table.push(
        Layout {
            country: "IS",
            length: 26,
            segments: vec![
                Segment::digits(Field::BankCode, 2),
                Segment::digits(Field::BranchCode, 2),
                Segment::digits(Field::AccountNumber, 2),
                Segment::digits(Field::AccountNumber, 6),
                Segment::digits(Field::AccountNumber, 10),
            ],
        },
    );
    table.push(
        Layout {
            country: "IT",
            length: 27,
            segments: vec![
                Segment::alnum(Field::NationalCheck, 1),
                Segment::digits(Field::BankCode, 5),
                Segment::digits(Field::BranchCode, 5),
                Segment::alnum(Field::AccountNumber, 12),
            ],
        },
    );
    table.push(
        Layout {
            country: "LI",
            length: 21,
            segments: vec![
                Segment::digits(Field::BankCode, 5),
                Segment::alnum(Field::AccountNumber, 12),
            ],
        },
    );
    table.push(
        Layout {
            country: "LT",
            length: 20,
            segments: vec![
                Segment::digits(Field::BankCode, 5),
                Segment::digits(Field::AccountNumber, 11),
            ],
        },
    );
    table.push(
        Layout {
            country: "LU",
            length: 20,
            segments: vec![
                Segment::digits(Field::BankCode, 3),
                Segment::alnum(Field::AccountNumber, 13),
            ],
        },
    );
    table.push(
        Layout {
            country: "LV",
            length: 21,
            segments: vec![
                Segment::alnum(Field::BankCode, 4),
                Segment::alnum(Field::AccountNumber, 13),
            ],
        },
    );
    table.push(
        Layout {
            country: "MT",
            length: 31,
            segments: vec![
                Segment::alnum(Field::BankCode, 4),
                Segment::digits(Field::BranchCode, 5),
                Segment::alnum(Field::AccountNumber, 18),
            ],
        },
    );
    table.push(
        Layout {
            country: "NL",
            length: 18,
            segments: vec![
                Segment::alnum(Field::BankCode, 4),
                Segment::digits(Field::AccountNumber, 10),
            ],
        },
    );
    table.push(
        Layout {
            country: "NO",
            length: 15,
            segments: vec![
                Segment::digits(Field::BankCode, 4),
                Segment::digits(Field::AccountNumber, 6),
                Segment::digits(Field::NationalCheck, 1),
            ],
        },
    );
    table.push(
        Layout {
            country: "PL",
            length: 28,
            segments: vec![
                Segment::digits(Field::BankCode, 3),
                Segment::digits(Field::BranchCode, 4),
                Segment::digits(Field::NationalCheck, 1),
                Segment::digits(Field::AccountNumber, 16),
            ],
        },
    );
    table.push(
        Layout {
            country: "PT",
            length: 25,
            segments: vec![
                Segment::digits(Field::BankCode, 4),
                Segment::digits(Field::BranchCode, 4),
                Segment::digits(Field::AccountNumber, 11),
                Segment::digits(Field::NationalCheck, 2),
            ],
        },
    );
    table.push(
        Layout {
            country: "RO",
            length: 24,
            segments: vec![
                Segment::alnum(Field::BankCode, 4),
                Segment::alnum(Field::AccountNumber, 16),
            ],
        },
    );
    table.push(
        Layout {
            country: "SE",
            length: 24,
            segments: vec![
                Segment::digits(Field::BankCode, 3),
                Segment::digits(Field::AccountNumber, 16),
                Segment::digits(Field::NationalCheck, 1),
            ],
        },
    );
    table.push(
        Layout {
            country: "SI",
            length: 19,
            segments: vec![
                Segment::digits(Field::BankCode, 2),
                Segment::digits(Field::BranchCode, 3),
                Segment::digits(Field::AccountNumber, 8),
                Segment::digits(Field::NationalCheck, 2),
            ],
        },
    );
    table.push(
        Layout {
            country: "SK",
            length: 24,
            segments: vec![
                Segment::digits(Field::BankCode, 4),
                Segment::digits(Field::AccountNumber, 6),
                Segment::digits(Field::AccountNumber, 10),
            ],
        },
    );
    table
}

/// The index of the row for `country`, if the table has one.
pub(crate) fn position(table: &Vec<Layout>, country: &str) -> (found: Option<usize>)
    requires
        table.len() == catalog().len(),
        forall|i: int| 0 <= i < table.len() ==> (#[trigger] table[i])@ == catalog()[i],
    ensures
        match found {
            Some(i) => i < table.len() && layout_of(country@) == Some(catalog()[i as int]),
            None => layout_of(country@) is None,
        },
{
    let mut i: usize = 0;
    while i < table.len()
        invariant
            i <= table.len(),
            table.len() == catalog().len(),
            forall|k: int| 0 <= k < table.len() ==> (#[trigger] table[k])@ == catalog()[k],
            forall|k: int| 0 <= k < i ==> (#[trigger] catalog()[k]).country != country@,
        decreases table.len() - i,
    {
        if same_text(table[i].country, country) {
            proof {
                assert(table[i as int]@ == catalog()[i as int]);
                lemma_layout_of_row(i as int);
            }
            return Some(i);
        }
        assert(table[i as int]@ == catalog()[i as int]);
        i += 1;
    }
    None
}

/// The layout of `country`'s codes, or nothing where the table has no row for
/// it.
pub fn layout_for(country: &str) -> (found: Option<Layout>)
    ensures
        match found {
            Some(layout) => layout_of(country@) == Some(layout@),
            None => layout_of(country@) is None,
        },
{
    let mut table = layouts();
    match position(&table, country) {
        Some(i) => Some(table.swap_remove(i)),
        None => None,
    }
}

/// The country codes of the table, in its order.
pub fn supported_countries() -> (codes: Vec<&'static str>)
    ensures
        codes.len() == catalog().len(),
        forall|i: int| 0 <= i < codes.len() ==> (#[trigger] codes[i])@ == catalog()[i].country,
{
    let table = layouts();
    let mut codes: Vec<&'static str> = Vec::new();
    let mut i: usize = 0;
    while i < table.len()
        invariant
            i <= table.len(),
            codes.len() == i,
            table.len() == catalog().len(),
            forall|k: int| 0 <= k < table.len() ==> (#[trigger] table[k])@ == catalog()[k],
            forall|k: int| 0 <= k < i ==> (#[trigger] codes[k])@ == catalog()[k].country,
        decreases table.len() - i,
    {
        assert(table[i as int]@ == catalog()[i as int]);
        codes.push(table[i].country);
        i += 1;
    }
    codes
}

} // verus!
