//! National personal identification numbers: one scheme per country, each
//! with its own layout and check digit, and a registry that finds the scheme
//! for a country code.

pub mod date;
pub mod digits;
pub mod bulgaria;
pub mod estonia;
pub mod lithuania;
pub mod poland;
pub mod romania;

use crate::checksum::is_digit;
use crate::personal_id::date::{year_as_asked, Date, Gender};
use crate::text::same_text;
use rand::rngs::StdRng;
use vstd::prelude::*;
use vstd::string::*;

verus! {

/// What a caller may ask of a generated number.
#[derive(Clone, Copy, Debug, PartialEq, Eq)]
pub struct GenOptions {
    /// The gender that the number has to encode, if any.
    pub gender: Option<Gender>,
    /// The year of birth that the number has to encode, if any.
    pub year: Option<u16>,
}

/// What a number of the right shape says, field by field.
#[derive(Clone, Copy, Debug, PartialEq, Eq)]
pub struct Decoded {
    /// The gender, where the number encodes one that can be read.
    pub gender: Option<Gender>,
    /// The date of birth, where the number encodes a day that exists.
    pub birth: Option<Date>,
    /// Whether the check digit is the one that the other digits call for.
    pub valid: bool,
}

/// The fields of a parsed number, ready for display.
#[derive(Clone, Debug, PartialEq, Eq)]
pub struct ParsedFields {
    /// The number as it was given.
    pub code: String,
    /// `Male` or `Female`.
    pub gender: Option<String>,
    /// The date of birth as `YYYY-MM-DD`.
    pub dob: Option<String>,
    /// Whether the check digit is right.
    pub valid: bool,
}

/// Parsed fields as contracts see them.
pub struct ParsedView {
    pub code: Seq<char>,
    pub gender: Option<Seq<char>>,
    pub dob: Option<Seq<char>>,
    pub valid: bool,
}

impl View for ParsedFields {
    type V = ParsedView;

    open spec fn view(&self) -> ParsedView {
        ParsedView {
            code: self.code@,
            gender: match self.gender {
                Some(word) => Some(word@),
                None => None,
            },
            dob: match self.dob {
                Some(text) => Some(text@),
                None => None,
            },
            valid: self.valid,
        }
    }
}

/// The display fields of a decoded number.
pub open spec fn rendered(code: Seq<char>, decoded: Decoded) -> ParsedView {
    ParsedView {
        code,
        gender: match decoded.gender {
            Some(gender) => Some(gender.label_text()),
            None => None,
        },
        dob: match decoded.birth {
            Some(birth) => if birth.is_valid() {
                Some(birth.iso())
            } else {
                None
            },
            None => None,
        },
        valid: decoded.valid,
    }
}

/// Turns a decoded number into its display fields.
pub fn render(code: &str, decoded: &Decoded) -> (fields: ParsedFields)
    ensures
        fields@ == rendered(code@, *decoded),
{
    let gender = match decoded.gender {
        Some(gender) => Some(String::from_str(gender.label())),
        None => None,
    };
    let dob = match decoded.birth {
        Some(birth) => birth.to_iso(),
        None => None,
    };
    ParsedFields { code: String::from_str(code), gender, dob, valid: decoded.valid }
}

/// What a generated number owes to the options it was generated for: it
/// decodes, its check digit is right, it encodes a gender and a day that
/// exists, the gender is the one asked for, and the year of birth is the one
/// asked for or one of the usual span.
pub open spec fn meets(options: GenOptions, decoded: Option<Decoded>) -> bool {
    &&& decoded matches Some(fields)
    &&& fields.valid
    &&& fields.gender matches Some(gender)
    &&& fields.birth matches Some(birth)
    &&& birth.is_valid()
    &&& options.gender matches Some(asked) ==> gender == asked
    &&& year_as_asked(options.year, birth)
}

/// The countries whose numbers can be generated and parsed.
#[derive(Clone, Copy, Debug, PartialEq, Eq, Structural)]
pub enum Scheme {
    Bulgaria,
    Estonia,
    Lithuania,
    Poland,
    Romania,
}

impl Scheme {
    /// What a string says as a number of this country.
    pub open spec fn decoded(self, code: Seq<char>) -> Option<Decoded> {
        match self {
            Scheme::Bulgaria => bulgaria::decoded(code),
            Scheme::Estonia => estonia::decoded(code),
            Scheme::Lithuania => lithuania::decoded(code),
            Scheme::Poland => poland::decoded(code),
            Scheme::Romania => romania::decoded(code),
        }
    }

    /// The length of this country's numbers.
    pub open spec fn length(self) -> int {
        match self {
            Scheme::Bulgaria => 10,
            Scheme::Estonia => 11,
            Scheme::Lithuania => 11,
            Scheme::Poland => 11,
            Scheme::Romania => 13,
        }
    }

    /// The display fields of a string as a number of this country.
    pub open spec fn parsed(self, code: Seq<char>) -> Option<ParsedView> {
        match self.decoded(code) {
            Some(told) => Some(rendered(code, told)),
            None => None,
        }
    }

    /// Whether this country's numbers can encode what the options ask for.
    pub open spec fn feasible(self, options: GenOptions) -> bool {
        match self {
            Scheme::Bulgaria => bulgaria::feasible(options),
            Scheme::Estonia => estonia::feasible(options),
            Scheme::Lithuania => lithuania::feasible(options),
            Scheme::Poland => poland::feasible(options),
            Scheme::Romania => romania::feasible(options),
        }
    }

    /// What every number is that is generated for the options: the encoding
    /// of a gender and a date of birth that are as the options ask, and of
    /// further fields that this country's numbers can encode.
    pub open spec fn drawn_for(self, options: GenOptions, code: Seq<char>) -> bool {
        match self {
            Scheme::Bulgaria => bulgaria::drawn_for(options, code),
            Scheme::Estonia => estonia::drawn_for(options, code),
            Scheme::Lithuania => lithuania::drawn_for(options, code),
            Scheme::Poland => poland::drawn_for(options, code),
            Scheme::Romania => romania::drawn_for(options, code),
        }
    }

    /// Generates a number of this country for the options. Nothing comes
    /// back only where the options ask for what no number can encode.
    pub fn generate(&self, options: &GenOptions, rng: &mut StdRng) -> (code: Option<String>)
        ensures
            code is Some <==> self.feasible(*options),
            code matches Some(code) ==> self.drawn_for(*options, code@),
            code matches Some(code) ==> meets(*options, self.decoded(code@)),
    {
        match self {
            Scheme::Bulgaria => bulgaria::generate(options, rng),
            Scheme::Estonia => estonia::generate(options, rng),
            Scheme::Lithuania => lithuania::generate(options, rng),
            Scheme::Poland => poland::generate(options, rng),
            Scheme::Romania => romania::generate(options, rng),
        }
    }

    /// Reads a number of this country field by field; nothing where the
    /// string has not the length or the characters of one.
    pub fn decode(&self, code: &str) -> (fields: Option<Decoded>)
        ensures
            fields == self.decoded(code@),
    {
        match self {
            Scheme::Bulgaria => bulgaria::decode(code),
            Scheme::Estonia => estonia::decode(code),
            Scheme::Lithuania => lithuania::decode(code),
            Scheme::Poland => poland::decode(code),
            Scheme::Romania => romania::decode(code),
        }
    }

    /// Parses a number of this country into display fields; nothing where
    /// the string has not the length or the characters of one.
    pub fn parse(&self, code: &str) -> (fields: Option<ParsedFields>)
        ensures
            match fields {
                Some(fields) => self.parsed(code@) == Some(fields@),
                None => self.parsed(code@) is None,
            },
    {
        match self.decode(code) {
            Some(told) => Some(render(code, &told)),
            None => None,
        }
    }
}

/// In every country a generated number decodes, with the right check digit,
/// to a gender and a date of birth that are as the options ask.
pub proof fn lemma_drawn_meets(scheme: Scheme, options: GenOptions, code: Seq<char>)
    requires
        scheme.drawn_for(options, code),
    ensures
        meets(options, scheme.decoded(code)),
{
    match scheme {
        Scheme::Bulgaria => bulgaria::lemma_drawn_meets(options, code),
        Scheme::Estonia => estonia::lemma_drawn_meets(options, code),
        Scheme::Lithuania => lithuania::lemma_drawn_meets(options, code),
        Scheme::Poland => poland::lemma_drawn_meets(options, code),
        Scheme::Romania => romania::lemma_drawn_meets(options, code),
    }
}

/// The display fields of a decoded number that is as the options ask: they
/// say that it is valid, name the gender that was asked for, and give a date
/// of birth that starts with the year that was asked for.
pub proof fn lemma_rendered_meets(options: GenOptions, code: Seq<char>, told: Decoded)
    requires
        meets(options, Some(told)),
    ensures
        rendered(code, told).valid,
        rendered(code, told).code == code,
        rendered(code, told).gender is Some,
        rendered(code, told).dob is Some,
        options.gender matches Some(asked) ==> rendered(code, told).gender == Some(
            asked.label_text(),
        ),
        options.year matches Some(asked) ==> rendered(code, told).dob->0.subrange(0, 4) == (Date {
            year: asked,
            month: 1,
            day: 1,
        }).iso().subrange(0, 4),
{
    let birth = told.birth->0;
    match options.year {
        Some(asked) => {
            assert(birth.iso().subrange(0, 4) =~= (Date { year: asked, month: 1, day: 1 }).iso().subrange(
                0,
                4,
            ));
        },
        None => {},
    }
}

/// A generated number parses: its fields say that it is valid, name the
/// gender that was asked for, and give a date of birth that starts with the
/// year that was asked for.
pub proof fn lemma_generated_parses(scheme: Scheme, options: GenOptions, code: Seq<char>)
    requires
        scheme.drawn_for(options, code),
    ensures
        scheme.parsed(code) matches Some(fields) && fields.valid && fields.code == code
            && fields.gender is Some && fields.dob is Some,
        options.gender matches Some(asked) ==> scheme.parsed(code)->0.gender == Some(
            asked.label_text(),
        ),
        options.year matches Some(asked) ==> scheme.parsed(code)->0.dob->0.subrange(0, 4)
            == (Date { year: asked, month: 1, day: 1 }).iso().subrange(0, 4),
{
    lemma_drawn_meets(scheme, options, code);
    lemma_rendered_meets(options, code, scheme.decoded(code)->0);
}

/// In every country the check digit is the last digit, and a valid number
/// with another digit in its place is not valid, while it still tells the
/// same gender and date of birth.
pub proof fn lemma_changed_check_digit_is_invalid(scheme: Scheme, code: Seq<char>, digit: char)
    requires
        scheme.decoded(code) matches Some(told) && told.valid,
        is_digit(digit),
        digit != code[scheme.length() - 1],
    ensures
        code.len() == scheme.length(),
        scheme.decoded(code.update(scheme.length() - 1, digit)) matches Some(told) && !told.valid
            && told.gender == scheme.decoded(code)->0.gender && told.birth == scheme.decoded(
            code,
        )->0.birth,
{
    match scheme {
        Scheme::Bulgaria => bulgaria::lemma_changed_check_digit(code, digit),
        Scheme::Estonia => estonia::lemma_changed_check_digit(code, digit),
        Scheme::Lithuania => lithuania::lemma_changed_check_digit(code, digit),
        Scheme::Poland => poland::lemma_changed_check_digit(code, digit),
        Scheme::Romania => romania::lemma_changed_check_digit(code, digit),
    }
}

/// One line of the registry: a country code, the country's name, and the
/// scheme of its numbers.
pub struct Listing {
    pub code: Seq<char>,
    pub name: Seq<char>,
    pub scheme: Scheme,
}

/// The registry's lines, in the order of their country codes.
pub open spec fn registered() -> Seq<Listing> {
    seq![
        Listing { code: "BG"@, name: "Bulgaria"@, scheme: Scheme::Bulgaria },
        Listing { code: "EE"@, name: "Estonia"@, scheme: Scheme::Estonia },
        Listing { code: "LT"@, name: "Lithuania"@, scheme: Scheme::Lithuania },
        Listing { code: "PL"@, name: "Poland"@, scheme: Scheme::Poland },
        Listing { code: "RO"@, name: "Romania"@, scheme: Scheme::Romania },
    ]
}

/// The scheme that is registered for a country code.
pub open spec fn scheme_of(country: Seq<char>) -> Option<Scheme> {
    if country == "BG"@ {
        Some(Scheme::Bulgaria)
    } else if country == "EE"@ {
        Some(Scheme::Estonia)
    } else if country == "LT"@ {
        Some(Scheme::Lithuania)
    } else if country == "PL"@ {
        Some(Scheme::Poland)
    } else if country == "RO"@ {
        Some(Scheme::Romania)
    } else {
        None
    }
}

/// The registry's lines are those of the registered schemes: each line's
/// country code leads to its scheme, and no other code leads to any.
pub proof fn lemma_registered_schemes()
    ensures
        registered().len() == 5,
        forall|i: int|
            0 <= i < registered().len() ==> scheme_of(#[trigger] registered()[i].code) == Some(
                registered()[i].scheme,
            ),
        forall|country: Seq<char>| #[trigger]
            scheme_of(country) is Some ==> exists|i: int|
                0 <= i < registered().len() && #[trigger] registered()[i].code == country,
{
    reveal_strlit("BG");
    reveal_strlit("EE");
    reveal_strlit("LT");
    reveal_strlit("PL");
    reveal_strlit("RO");
    assert("BG"@[0] == 'B' && "EE"@[0] == 'E' && "LT"@[0] == 'L' && "PL"@[0] == 'P' && "RO"@[0]
        == 'R');
    assert forall|country: Seq<char>| #[trigger] scheme_of(country) is Some implies exists|i: int|
        0 <= i < registered().len() && #[trigger] registered()[i].code == country by {
        if country == "BG"@ {
            assert(registered()[0].code == country);
        } else if country == "EE"@ {
            assert(registered()[1].code == country);
        } else if country == "LT"@ {
            assert(registered()[2].code == country);
        } else if country == "PL"@ {
            assert(registered()[3].code == country);
        } else {
            assert(registered()[4].code == country);
        }
    }
}

/// One line of the registry as it is held.
struct Entry {
    code: &'static str,
    name: &'static str,
    scheme: Scheme,
}

impl View for Entry {
    type V = Listing;

    closed spec fn view(&self) -> Listing {
        Listing { code: self.code@, name: self.name@, scheme: self.scheme }
    }
}

/// The schemes by country code. Built once, read ever after.
pub struct Registry {
    entries: Vec<Entry>,
}

impl Registry {
    /// The lines that the registry holds.
    pub closed spec fn lines(&self) -> Seq<Listing> {
        Seq::new(self.entries.len() as nat, |i: int| self.entries[i]@)
    }

    /// The registry holds the registered lines, in their order.
    #[verifier::type_invariant]
    spec fn listed(self) -> bool {
        self.lines() == registered()
    }

    /// The registry of all schemes.
    pub fn new() -> (registry: Registry)
        ensures
            registry.lines() == registered(),
    {
        let mut entries: Vec<Entry> = Vec::new();
        entries.push(Entry { code: "BG", name: "Bulgaria", scheme: Scheme::Bulgaria });
        entries.push(Entry { code: "EE", name: "Estonia", scheme: Scheme::Estonia });
        entries.push(Entry { code: "LT", name: "Lithuania", scheme: Scheme::Lithuania });
        entries.push(Entry { code: "PL", name: "Poland", scheme: Scheme::Poland });
        entries.push(Entry { code: "RO", name: "Romania", scheme: Scheme::Romania });
        assert(Seq::new(entries.len() as nat, |i: int| entries[i]@) =~= registered());
        Registry { entries }
    }

    /// What the invariant says of the entries one by one.
    proof fn lemma_entries(&self)
        requires
            self.lines() == registered(),
        ensures
            self.entries.len() == registered().len(),
            forall|i: int|
                0 <= i < self.entries.len() ==> (#[trigger] self.entries[i])@ == registered()[i],
    {
        assert forall|i: int| 0 <= i < self.entries.len() implies (#[trigger] self.entries[i])@
            == registered()[i] by {
            assert(self.lines()[i] == self.entries[i]@);
        }
    }

    /// Country code and name of every registered country, in the order of the
    /// codes.
    pub fn list_countries(&self) -> (countries: Vec<(&'static str, &'static str)>)
        ensures
            countries.len() == registered().len(),
            forall|i: int|
                0 <= i < countries.len() ==> (#[trigger] countries[i]).0@ == registered()[i].code
                    && countries[i].1@ == registered()[i].name,
    {
        proof {
            use_type_invariant(self);
            self.lemma_entries();
        }
        let mut countries: Vec<(&'static str, &'static str)> = Vec::new();
        let mut i: usize = 0;
        while i < self.entries.len()
            invariant
                i <= self.entries.len(),
                countries.len() == i,
                self.entries.len() == registered().len(),
                forall|k: int| 0 <= k < self.entries.len() ==> (#[trigger] self.entries[k])@ == registered()[k],
                forall|k: int|
                    0 <= k < i ==> (#[trigger] countries[k]).0@ == registered()[k].code
                        && countries[k].1@ == registered()[k].name,
            decreases self.entries.len() - i,
        {
            assert(self.entries[i as int]@ == registered()[i as int]);
            countries.push((self.entries[i].code, self.entries[i].name));
            i += 1;
        }
        countries
    }

    /// The scheme that is registered for `country`, if any.
    pub fn scheme(&self, country: &str) -> (found: Option<Scheme>)
        ensures
            found == scheme_of(country@),
    {
        proof {
            use_type_invariant(self);
            self.lemma_entries();
            lemma_registered_schemes();
        }
        let mut i: usize = 0;
        while i < self.entries.len()
            invariant
                i <= self.entries.len(),
                self.entries.len() == registered().len(),
                forall|k: int| 0 <= k < self.entries.len() ==> (#[trigger] self.entries[k])@ == registered()[k],
                forall|k: int| 0 <= k < i ==> (#[trigger] registered()[k]).code != country@,
            decreases self.entries.len() - i,
        {
            assert(self.entries[i as int]@ == registered()[i as int]);
            if same_text(self.entries[i].code, country) {
                return Some(self.entries[i].scheme);
            }
            i += 1;
        }
        None
    }

    /// Generates a number of `country` for the options. Nothing comes back
    /// where no scheme is registered for the country, or where the options
    /// ask for what its numbers cannot encode.
    pub fn generate(&self, country: &str, options: &GenOptions, rng: &mut StdRng) -> (code: Option<String>)
        ensures
            match scheme_of(country@) {
                Some(scheme) => {
                    &&& code is Some <==> scheme.feasible(*options)
                    &&& code matches Some(code) ==> scheme.drawn_for(*options, code@)
                    &&& code matches Some(code) ==> meets(*options, scheme.decoded(code@))
                },
                None => code is None,
            },
    {
        match self.scheme(country) {
            Some(scheme) => scheme.generate(options, rng),
            None => None,
        }
    }

    /// Parses `code` as a number of `country`. Nothing comes back where no
    /// scheme is registered for the country, or where the string has not the
    /// length or the characters of its numbers.
    pub fn parse(&self, country: &str, code: &str) -> (fields: Option<ParsedFields>)
        ensures
            match scheme_of(country@) {
                Some(scheme) => match fields {
                    Some(fields) => scheme.parsed(code@) == Some(fields@),
                    None => scheme.parsed(code@) is None,
                },
                None => fields is None,
            },
    {
        match self.scheme(country) {
            Some(scheme) => scheme.parse(code),
            None => None,
        }
    }
}

} // verus!
