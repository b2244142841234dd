use eu_test_data_generator::personal_id::date::{leap_year, month_length, Date, Gender};
use eu_test_data_generator::personal_id::digits::read_digits;
use eu_test_data_generator::personal_id::{
    bulgaria, estonia, lithuania, poland, render, romania, Decoded, GenOptions, ParsedFields,
    Registry, Scheme,
};
use rand::rngs::StdRng;
use rand::SeedableRng;

const SCHEMES: [(&str, Scheme, u16, u16); 5] = [
    ("BG", Scheme::Bulgaria, 1800, 2099),
    ("EE", Scheme::Estonia, 1800, 2199),
    ("LT", Scheme::Lithuania, 1800, 2099),
    ("PL", Scheme::Poland, 1800, 2299),
    ("RO", Scheme::Romania, 1800, 2099),
];

fn day(year: u16, month: u8, day: u8) -> Date {
    Date { year, month, day }
}

fn told(gender: Gender, birth: Date, valid: bool) -> Option<Decoded> {
    Some(Decoded { gender: Some(gender), birth: Some(birth), valid })
}

fn fields(code: &str, gender: &str, dob: &str, valid: bool) -> Option<ParsedFields> {
    Some(ParsedFields {
        code: code.to_string(),
        gender: Some(gender.to_string()),
        dob: Some(dob.to_string()),
        valid,
    })
}

fn with_digit_changed(code: &str, at: usize) -> String {
    let mut chars: Vec<char> = code.chars().collect();
    let digit = chars[at].to_digit(10).unwrap();
    chars[at] = char::from_digit((digit + 1) % 10, 10).unwrap();
    chars.into_iter().collect()
}

#[test]
fn leap_years_follow_the_gregorian_rule() {
    assert!(leap_year(2000));
    assert!(leap_year(2024));
    assert!(leap_year(1996));
    assert!(!leap_year(1900));
    assert!(!leap_year(2100));
    assert!(!leap_year(2023));
}

#[test]
fn months_have_their_lengths() {
    let lengths = [31, 28, 31, 30, 31, 30, 31, 31, 30, 31, 30, 31];
    for month in 1..=12u8 {
        assert_eq!(month_length(2023, month), lengths[month as usize - 1]);
    }
    assert_eq!(month_length(2024, 2), 29);
    assert_eq!(month_length(1900, 2), 28);
    assert_eq!(month_length(2000, 2), 29);
    assert_eq!(month_length(2023, 0), 0);
    assert_eq!(month_length(2023, 13), 0);
}

#[test]
fn dates_are_made_only_of_days_that_exist() {
    assert_eq!(Date::new(2024, 2, 29), Some(day(2024, 2, 29)));
    assert_eq!(Date::new(2023, 2, 29), None);
    assert_eq!(Date::new(1900, 2, 29), None);
    assert_eq!(Date::new(2023, 4, 31), None);
    assert_eq!(Date::new(2023, 0, 1), None);
    assert_eq!(Date::new(2023, 13, 1), None);
    assert_eq!(Date::new(2023, 1, 0), None);
    assert_eq!(Date::new(2023, 1, 32), None);
    assert_eq!(Date::new(10000, 1, 1), None);
    assert_eq!(Date::new(9999, 12, 31), Some(day(9999, 12, 31)));
    assert!(day(1976, 5, 3).check());
    assert!(!day(1976, 5, 32).check());
}

#[test]
fn dates_are_written_year_first_with_zeros() {
    assert_eq!(day(1976, 5, 3).to_iso().unwrap(), "1976-05-03");
    assert_eq!(day(2004, 12, 31).to_iso().unwrap(), "2004-12-31");
    assert_eq!(day(800, 1, 1).to_iso().unwrap(), "0800-01-01");
    assert_eq!(day(2023, 2, 30).to_iso(), None);
}

#[test]
fn genders_have_their_labels() {
    assert_eq!(Gender::Male.label(), "Male");
    assert_eq!(Gender::Female.label(), "Female");
}

#[test]
fn digits_are_read_only_from_digit_strings_of_the_right_length() {
    assert_eq!(read_digits("0123", 4), Some(vec![0, 1, 2, 3]));
    assert_eq!(read_digits("", 0), Some(vec![]));
    assert_eq!(read_digits("0123", 5), None);
    assert_eq!(read_digits("0123", 3), None);
    assert_eq!(read_digits("01a3", 4), None);
    assert_eq!(read_digits("01 3", 4), None);
    assert_eq!(read_digits("\u{661}\u{662}", 2), None);
}

#[test]
fn estonia_encodes_a_known_number() {
    assert_eq!(estonia::encode(Gender::Male, day(1976, 5, 3), 29).unwrap(), "37605030299");
    assert_eq!(estonia::encode(Gender::Female, day(1990, 1, 1), 0).unwrap(), "49001010001");
}

#[test]
fn estonia_falls_back_to_the_second_weights_and_to_zero() {
    assert_eq!(estonia::encode(Gender::Female, day(1990, 1, 1), 9).unwrap(), "49001010093");
    assert_eq!(estonia::encode(Gender::Female, day(1990, 1, 1), 58).unwrap(), "49001010580");
    assert_eq!(estonia::decode("49001010093"), told(Gender::Female, day(1990, 1, 1), true));
    assert_eq!(estonia::decode("49001010580"), told(Gender::Female, day(1990, 1, 1), true));
    assert_eq!(estonia::decode("49001010581"), told(Gender::Female, day(1990, 1, 1), false));
}

#[test]
fn estonia_folds_century_and_gender_into_the_first_digit() {
    let expected = [
        (1800, Gender::Male, '1'), (1899, Gender::Female, '2'), (1900, Gender::Male, '3'),
        (1999, Gender::Female, '4'), (2000, Gender::Male, '5'), (2099, Gender::Female, '6'),
        (2100, Gender::Male, '7'), (2199, Gender::Female, '8'),
    ];
    for (year, gender, lead) in expected {
        let code = estonia::encode(gender, day(year, 6, 15), 123).unwrap();
        assert_eq!(code.chars().next(), Some(lead));
        assert_eq!(estonia::decode(&code), told(gender, day(year, 6, 15), true));
    }
}

#[test]
fn estonia_refuses_what_cannot_be_encoded() {
    assert_eq!(estonia::encode(Gender::Male, day(1799, 12, 31), 1), None);
    assert_eq!(estonia::encode(Gender::Male, day(2200, 1, 1), 1), None);
    assert_eq!(estonia::encode(Gender::Male, day(1976, 2, 30), 1), None);
    assert_eq!(estonia::encode(Gender::Male, day(1976, 5, 3), 1000), None);
    assert!(estonia::encode(Gender::Male, day(1976, 5, 3), 999).is_some());
}

#[test]
fn estonia_decodes_a_known_number() {
    assert_eq!(estonia::decode("37605030299"), told(Gender::Male, day(1976, 5, 3), true));
    assert_eq!(estonia::parse("37605030299"), fields("37605030299", "Male", "1976-05-03", true));
}

#[test]
fn estonia_tells_fields_of_a_number_with_a_wrong_check_digit() {
    assert_eq!(estonia::decode("37605030298"), told(Gender::Male, day(1976, 5, 3), false));
    assert_eq!(estonia::parse("37605030290"), fields("37605030290", "Male", "1976-05-03", false));
}

#[test]
fn estonia_leaves_out_fields_that_cannot_be_read() {
    let parsed = estonia::parse("07605030299").unwrap();
    assert_eq!(parsed.gender, None);
    assert_eq!(parsed.dob, None);
    let parsed = estonia::parse("97605030299").unwrap();
    assert_eq!(parsed.gender, None);
    assert_eq!(parsed.dob, None);
    let parsed = estonia::parse("37613030299").unwrap();
    assert_eq!(parsed.gender, Some("Male".to_string()));
    assert_eq!(parsed.dob, None);
    let parsed = estonia::parse("37602300299").unwrap();
    assert_eq!(parsed.dob, None);
    let parsed = estonia::parse("30002290000").unwrap();
    assert_eq!(parsed.dob, None);
    let parsed = estonia::parse("50002290000").unwrap();
    assert_eq!(parsed.dob, Some("2000-02-29".to_string()));
}

#[test]
fn estonia_parses_nothing_of_the_wrong_shape() {
    assert_eq!(estonia::parse(""), None);
    assert_eq!(estonia::parse("3760503029"), None);
    assert_eq!(estonia::parse("376050302999"), None);
    assert_eq!(estonia::parse("3760503029X"), None);
    assert_eq!(estonia::parse("37605 30299"), None);
    assert_eq!(estonia::decode("3760503029\u{669}"), None);
}

#[test]
fn lithuania_encodes_and_decodes_a_known_number() {
    assert_eq!(lithuania::encode(Gender::Male, day(1933, 9, 24), 6).unwrap(), "33309240064");
    assert_eq!(lithuania::decode("33309240064"), told(Gender::Male, day(1933, 9, 24), true));
    assert_eq!(lithuania::parse("33309240064"), fields("33309240064", "Male", "1933-09-24", true));
    assert_eq!(lithuania::decode("33309240063"), told(Gender::Male, day(1933, 9, 24), false));
}

#[test]
fn lithuania_knows_three_centuries() {
    assert_eq!(lithuania::encode(Gender::Male, day(2100, 1, 1), 1), None);
    assert_eq!(lithuania::encode(Gender::Male, day(1799, 1, 1), 1), None);
    assert!(lithuania::encode(Gender::Female, day(2099, 12, 31), 999).is_some());
    assert!(lithuania::encode(Gender::Female, day(1800, 1, 1), 0).is_some());
    let parsed = lithuania::parse("77605030299").unwrap();
    assert_eq!(parsed.gender, None);
    assert_eq!(parsed.dob, None);
    assert_eq!(lithuania::parse("776050302"), None);
}

#[test]
fn romania_encodes_and_decodes_a_known_number() {
    assert_eq!(romania::encode(Gender::Male, day(1980, 1, 1), 22, 114).unwrap(), "1800101221144");
    assert_eq!(romania::decode("1800101221144"), told(Gender::Male, day(1980, 1, 1), true));
    assert_eq!(romania::parse("1800101221144"), fields("1800101221144", "Male", "1980-01-01", true));
    assert_eq!(romania::decode("1800101221140"), told(Gender::Male, day(1980, 1, 1), false));
}

#[test]
fn romania_writes_one_where_the_remainder_is_ten() {
    assert_eq!(romania::encode(Gender::Female, day(2004, 2, 29), 51, 4).unwrap(), "6040229510041");
    assert_eq!(romania::decode("6040229510041"), told(Gender::Female, day(2004, 2, 29), true));
    assert_eq!(romania::decode("6040229510040"), told(Gender::Female, day(2004, 2, 29), false));
}

#[test]
fn romania_tells_the_century_by_the_first_digit() {
    let expected = [
        (1800, Gender::Male, '3'), (1899, Gender::Female, '4'), (1900, Gender::Male, '1'),
        (1999, Gender::Female, '2'), (2000, Gender::Male, '5'), (2099, Gender::Female, '6'),
    ];
    for (year, gender, lead) in expected {
        let code = romania::encode(gender, day(year, 6, 15), 40, 123).unwrap();
        assert_eq!(code.chars().next(), Some(lead));
        assert_eq!(romania::decode(&code), told(gender, day(year, 6, 15), true));
    }
}

#[test]
fn romania_reads_the_gender_of_residents_but_not_their_century() {
    let decoded = romania::decode("7800101221144").unwrap();
    assert_eq!(decoded.gender, Some(Gender::Male));
    assert_eq!(decoded.birth, None);
    let decoded = romania::decode("8800101221144").unwrap();
    assert_eq!(decoded.gender, Some(Gender::Female));
    assert_eq!(decoded.birth, None);
    let decoded = romania::decode("9800101221144").unwrap();
    assert_eq!(decoded.gender, None);
    assert_eq!(decoded.birth, None);
    let decoded = romania::decode("0800101221144").unwrap();
    assert_eq!(decoded.gender, None);
    assert_eq!(decoded.birth, None);
}

#[test]
fn romania_refuses_what_cannot_be_encoded() {
    assert_eq!(romania::encode(Gender::Male, day(1980, 1, 1), 0, 114), None);
    assert_eq!(romania::encode(Gender::Male, day(1980, 1, 1), 47, 114), None);
    assert_eq!(romania::encode(Gender::Male, day(1980, 1, 1), 50, 114), None);
    assert_eq!(romania::encode(Gender::Male, day(1980, 1, 1), 53, 114), None);
    assert_eq!(romania::encode(Gender::Male, day(1980, 1, 1), 22, 0), None);
    assert_eq!(romania::encode(Gender::Male, day(1980, 1, 1), 22, 1000), None);
    assert_eq!(romania::encode(Gender::Male, day(2100, 1, 1), 22, 1), None);
    assert_eq!(romania::encode(Gender::Male, day(1980, 2, 30), 22, 1), None);
    assert!(romania::encode(Gender::Male, day(1980, 1, 1), 46, 999).is_some());
    assert!(romania::encode(Gender::Male, day(1980, 1, 1), 52, 1).is_some());
    assert_eq!(romania::parse("180010122114"), None);
    assert_eq!(romania::parse("18001012211444"), None);
    assert_eq!(romania::parse("180010122114A"), None);
}

#[test]
fn poland_encodes_and_decodes_a_known_number() {
    assert_eq!(poland::encode(Gender::Male, day(1944, 5, 14), 67).unwrap(), "44051401359");
    assert_eq!(poland::decode("44051401359"), told(Gender::Male, day(1944, 5, 14), true));
    assert_eq!(poland::parse("44051401359"), fields("44051401359", "Male", "1944-05-14", true));
    assert_eq!(poland::decode("44051401358"), told(Gender::Male, day(1944, 5, 14), false));
}

#[test]
fn poland_carries_the_century_in_the_month() {
    assert_eq!(poland::encode(Gender::Female, day(2002, 12, 31), 4999).unwrap(), "02323199982");
    assert_eq!(poland::encode(Gender::Male, day(1899, 1, 1), 0).unwrap(), "99810100013");
    assert_eq!(poland::encode(Gender::Female, day(2299, 12, 31), 0).unwrap(), "99723100001");
    assert_eq!(poland::decode("02323199982"), told(Gender::Female, day(2002, 12, 31), true));
    assert_eq!(poland::decode("99810100013"), told(Gender::Male, day(1899, 1, 1), true));
    assert_eq!(poland::decode("99723100001"), told(Gender::Female, day(2299, 12, 31), true));
    let code = poland::encode(Gender::Male, day(2150, 7, 4), 1).unwrap();
    assert_eq!(&code[2..4], "47");
    assert_eq!(poland::decode(&code), told(Gender::Male, day(2150, 7, 4), true));
}

#[test]
fn poland_refuses_what_cannot_be_encoded() {
    assert_eq!(poland::encode(Gender::Male, day(1799, 1, 1), 0), None);
    assert_eq!(poland::encode(Gender::Male, day(2300, 1, 1), 0), None);
    assert_eq!(poland::encode(Gender::Male, day(1944, 5, 14), 5000), None);
    assert_eq!(poland::encode(Gender::Male, day(1944, 5, 32), 1), None);
    assert_eq!(poland::parse("4405140135"), None);
    assert_eq!(poland::parse("44051401359 "), None);
    let decoded = poland::decode("44131401359").unwrap();
    assert_eq!(decoded.birth, None);
    assert_eq!(decoded.gender, Some(Gender::Male));
    let decoded = poland::decode("44001401359").unwrap();
    assert_eq!(decoded.birth, None);
}

#[test]
fn bulgaria_encodes_and_decodes_known_numbers() {
    assert_eq!(bulgaria::encode(Gender::Male, day(1875, 3, 16), 463).unwrap(), "7523169263");
    assert_eq!(bulgaria::encode(Gender::Female, day(1880, 12, 5), 301).unwrap(), "8032056031");
    assert_eq!(bulgaria::decode("7523169263"), told(Gender::Male, day(1875, 3, 16), true));
    assert_eq!(bulgaria::decode("8032056031"), told(Gender::Female, day(1880, 12, 5), true));
    assert_eq!(bulgaria::parse("8032056031"), fields("8032056031", "Female", "1880-12-05", true));
    assert_eq!(bulgaria::decode("8032056032"), told(Gender::Female, day(1880, 12, 5), false));
}

#[test]
fn bulgaria_writes_zero_where_the_remainder_is_ten() {
    assert_eq!(bulgaria::encode(Gender::Male, day(2001, 7, 4), 2).unwrap(), "0147040040");
    assert_eq!(bulgaria::decode("0147040040"), told(Gender::Male, day(2001, 7, 4), true));
    assert_eq!(bulgaria::decode("0147040041"), told(Gender::Male, day(2001, 7, 4), false));
}

#[test]
fn bulgaria_refuses_what_cannot_be_encoded() {
    assert_eq!(bulgaria::encode(Gender::Male, day(1799, 1, 1), 0), None);
    assert_eq!(bulgaria::encode(Gender::Male, day(2100, 1, 1), 0), None);
    assert_eq!(bulgaria::encode(Gender::Male, day(2001, 7, 4), 500), None);
    assert_eq!(bulgaria::encode(Gender::Male, day(2001, 6, 31), 1), None);
    assert_eq!(bulgaria::parse("014704004"), None);
    assert_eq!(bulgaria::parse("01470400400"), None);
    assert_eq!(bulgaria::parse("014704004O"), None);
    let decoded = bulgaria::decode("0167040040").unwrap();
    assert_eq!(decoded.birth, None);
    let decoded = bulgaria::decode("0113040040").unwrap();
    assert_eq!(decoded.birth, None);
}

#[test]
fn render_labels_gender_and_writes_the_date() {
    let shown = render("x", &Decoded { gender: Some(Gender::Female), birth: Some(day(2001, 7, 4)), valid: false });
    assert_eq!(shown, fields("x", "Female", "2001-07-04", false).unwrap());
    let shown = render("y", &Decoded { gender: None, birth: None, valid: true });
    assert_eq!(shown, ParsedFields { code: "y".to_string(), gender: None, dob: None, valid: true });
    let shown = render("z", &Decoded { gender: None, birth: Some(day(2001, 2, 30)), valid: true });
    assert_eq!(shown.dob, None);
}

#[test]
fn registry_lists_its_countries_in_order() {
    let registry = Registry::new();
    assert_eq!(
        registry.list_countries(),
        vec![
            ("BG", "Bulgaria"),
            ("EE", "Estonia"),
            ("LT", "Lithuania"),
            ("PL", "Poland"),
            ("RO", "Romania"),
        ]
    );
}

#[test]
fn registry_finds_the_scheme_of_a_country() {
    let registry = Registry::new();
    for (country, scheme, _, _) in SCHEMES {
        assert_eq!(registry.scheme(country), Some(scheme));
    }
    assert_eq!(registry.scheme("DE"), None);
    assert_eq!(registry.scheme("ee"), None);
    assert_eq!(registry.scheme(""), None);
    assert_eq!(registry.scheme("EST"), None);
}

#[test]
fn registry_has_nothing_for_an_unregistered_country() {
    let registry = Registry::new();
    let mut rng = StdRng::seed_from_u64(1);
    let options = GenOptions { gender: None, year: None };
    assert_eq!(registry.generate("DE", &options, &mut rng), None);
    assert_eq!(registry.generate("", &options, &mut rng), None);
    assert_eq!(registry.generate("ee", &options, &mut rng), None);
    assert_eq!(registry.parse("DE", "37605030299"), None);
    assert_eq!(registry.parse("XX", "37605030299"), None);
}

#[test]
fn registry_parses_by_the_scheme_of_the_country() {
    let registry = Registry::new();
    assert_eq!(registry.parse("EE", "37605030299"), fields("37605030299", "Male", "1976-05-03", true));
    assert_eq!(registry.parse("LT", "33309240064"), fields("33309240064", "Male", "1933-09-24", true));
    assert_eq!(registry.parse("PL", "44051401359"), fields("44051401359", "Male", "1944-05-14", true));
    assert_eq!(registry.parse("RO", "1800101221144"), fields("1800101221144", "Male", "1980-01-01", true));
    assert_eq!(registry.parse("BG", "7523169263"), fields("7523169263", "Male", "1875-03-16", true));
    assert_eq!(registry.parse("BG", "37605030299"), None);
    assert_eq!(registry.parse("RO", "37605030299"), None);
    assert_eq!(registry.parse("EE", "7523169263"), None);
}

#[test]
fn generated_numbers_parse_as_valid_in_every_country() {
    let registry = Registry::new();
    let mut rng = StdRng::seed_from_u64(42);
    let options = GenOptions { gender: None, year: None };
    for (country, _) in registry.list_countries() {
        for _ in 0..200 {
            let code = registry.generate(country, &options, &mut rng).unwrap();
            let parsed = registry.parse(country, &code).unwrap();
            assert_eq!(parsed.code, code);
            assert!(parsed.valid, "{} {}", country, code);
            assert!(parsed.gender.is_some(), "{} {}", country, code);
            let dob = parsed.dob.unwrap();
            let year: u16 = dob[0..4].parse().unwrap();
            assert!((1930..=2019).contains(&year), "{} {}", country, code);
        }
    }
}

#[test]
fn generated_numbers_honour_gender_and_year() {
    let registry = Registry::new();
    let mut rng = StdRng::seed_from_u64(43);
    for (country, scheme, first, last) in SCHEMES {
        for gender in [Gender::Male, Gender::Female] {
            for year in [first, first + 99, 1900, 1976, 1999, 2000, 2024, last] {
                let options = GenOptions { gender: Some(gender), year: Some(year) };
                for _ in 0..10 {
                    let code = registry.generate(country, &options, &mut rng).unwrap();
                    let parsed = registry.parse(country, &code).unwrap();
                    assert!(parsed.valid, "{} {}", country, code);
                    assert_eq!(parsed.gender.as_deref(), Some(gender.label()));
                    assert_eq!(&parsed.dob.unwrap()[0..4], format!("{:04}", year));
                    let decoded = scheme.decode(&code).unwrap();
                    assert_eq!(decoded.gender, Some(gender));
                    assert_eq!(decoded.birth.unwrap().year, year);
                    assert!(decoded.birth.unwrap().check());
                }
            }
        }
    }
}

#[test]
fn generated_numbers_honour_a_gender_alone_and_a_year_alone() {
    let mut rng = StdRng::seed_from_u64(44);
    for (_, scheme, _, _) in SCHEMES {
        for _ in 0..20 {
            let options = GenOptions { gender: Some(Gender::Female), year: None };
            let code = scheme.generate(&options, &mut rng).unwrap();
            assert_eq!(scheme.decode(&code).unwrap().gender, Some(Gender::Female));
            let options = GenOptions { gender: None, year: Some(2004) };
            let code = scheme.generate(&options, &mut rng).unwrap();
            let decoded = scheme.decode(&code).unwrap();
            assert_eq!(decoded.birth.unwrap().year, 2004);
            assert!(decoded.valid);
        }
    }
}

#[test]
fn a_year_that_cannot_be_encoded_gives_nothing() {
    let registry = Registry::new();
    let mut rng = StdRng::seed_from_u64(45);
    for (country, scheme, first, last) in SCHEMES {
        for year in [0, 1, 1799, first - 1, last + 1, 2300, 9999, 10000, u16::MAX] {
            for gender in [None, Some(Gender::Male), Some(Gender::Female)] {
                let options = GenOptions { gender, year: Some(year) };
                assert_eq!(registry.generate(country, &options, &mut rng), None, "{} {}", country, year);
                assert_eq!(scheme.generate(&options, &mut rng), None, "{} {}", country, year);
            }
        }
    }
    let options = GenOptions { gender: None, year: Some(2150) };
    assert!(estonia::generate(&options, &mut rng).is_some());
    assert!(poland::generate(&options, &mut rng).is_some());
    assert_eq!(lithuania::generate(&options, &mut rng), None);
    assert_eq!(romania::generate(&options, &mut rng), None);
    assert_eq!(bulgaria::generate(&options, &mut rng), None);
}

#[test]
fn generated_numbers_have_the_length_of_their_scheme() {
    let mut rng = StdRng::seed_from_u64(46);
    let options = GenOptions { gender: None, year: None };
    for (scheme, length) in [
        (Scheme::Bulgaria, 10),
        (Scheme::Estonia, 11),
        (Scheme::Lithuania, 11),
        (Scheme::Poland, 11),
        (Scheme::Romania, 13),
    ] {
        for _ in 0..50 {
            let code = scheme.generate(&options, &mut rng).unwrap();
            assert_eq!(code.len(), length);
            assert!(code.chars().all(|c| c.is_ascii_digit()), "{}", code);
        }
    }
}

#[test]
fn generation_of_numbers_is_repeatable_under_one_seed() {
    let registry = Registry::new();
    let mut first = StdRng::seed_from_u64(9);
    let mut second = StdRng::seed_from_u64(9);
    let options = GenOptions { gender: None, year: None };
    for (country, _) in registry.list_countries() {
        for _ in 0..10 {
            assert_eq!(
                registry.generate(country, &options, &mut first),
                registry.generate(country, &options, &mut second)
            );
        }
    }
}

#[test]
fn scheme_parse_is_render_of_decode() {
    for (_, scheme, _, _) in SCHEMES {
        for code in ["37605030299", "1800101221144", "7523169263", "44051401359", "x", ""] {
            let expected = scheme.decode(code).map(|decoded| render(code, &decoded));
            assert_eq!(scheme.parse(code), expected);
        }
    }
}

#[test]
fn a_changed_digit_makes_a_known_number_invalid_in_every_country() {
    let registry = Registry::new();
    let known = [
        ("BG", "7523169263"),
        ("EE", "37605030299"),
        ("LT", "33309240064"),
        ("PL", "44051401359"),
        ("RO", "1800101221144"),
    ];
    for (country, code) in known {
        assert!(registry.parse(country, code).unwrap().valid);
        let last = code.len() - 1;
        let changed = with_digit_changed(code, last);
        assert!(!registry.parse(country, &changed).unwrap().valid, "{} {}", country, changed);
        let changed = with_digit_changed(code, last - 1);
        assert!(!registry.parse(country, &changed).unwrap().valid, "{} {}", country, changed);
    }
}

#[test]
fn a_changed_check_digit_makes_a_generated_number_invalid() {
    let registry = Registry::new();
    let mut rng = StdRng::seed_from_u64(47);
    let options = GenOptions { gender: None, year: None };
    for (country, _) in registry.list_countries() {
        for _ in 0..50 {
            let code = registry.generate(country, &options, &mut rng).unwrap();
            let changed = with_digit_changed(&code, code.len() - 1);
            let parsed = registry.parse(country, &changed).unwrap();
            assert!(!parsed.valid, "{} {}", country, changed);
            let whole = registry.parse(country, &code).unwrap();
            assert_eq!(parsed.gender, whole.gender);
            assert_eq!(parsed.dob, whole.dob);
        }
    }
}

#[test]
fn any_changed_digit_makes_a_polish_number_invalid() {
    for code in ["44051401359", "02323199982", "99810100013"] {
        for at in 0..code.len() {
            for digit in 0..10u32 {
                let mut chars: Vec<char> = code.chars().collect();
                let new = char::from_digit(digit, 10).unwrap();
                if chars[at] == new {
                    continue;
                }
                chars[at] = new;
                let changed: String = chars.into_iter().collect();
                assert!(!poland::decode(&changed).unwrap().valid, "{}", changed);
            }
        }
    }
}

#[test]
fn a_changed_check_digit_keeps_the_fields_of_a_known_number() {
    let known = [
        (Scheme::Bulgaria, "7523169263"),
        (Scheme::Estonia, "37605030299"),
        (Scheme::Lithuania, "33309240064"),
        (Scheme::Poland, "44051401359"),
        (Scheme::Romania, "1800101221144"),
    ];
    for (scheme, code) in known {
        let whole = scheme.decode(code).unwrap();
        assert!(whole.valid);
        for digit in 0..10u32 {
            let mut chars: Vec<char> = code.chars().collect();
            let last = chars.len() - 1;
            let new = char::from_digit(digit, 10).unwrap();
            if chars[last] == new {
                continue;
            }
            chars[last] = new;
            let changed: String = chars.into_iter().collect();
            let decoded = scheme.decode(&changed).unwrap();
            assert!(!decoded.valid, "{}", changed);
            assert_eq!(decoded.gender, whole.gender);
            assert_eq!(decoded.birth, whole.birth);
        }
    }
}
