use eu_test_data_generator::iban::catalog::{layout_for, layouts, CharClass, Field, Layout, Segment};
use eu_test_data_generator::iban::{
    assemble_iban, format_iban, generate_iban, random_bban, supported_countries, validate_iban,
    GenerationError,
};
use rand::rngs::StdRng;
use rand::SeedableRng;

fn in_class(c: char, class: CharClass) -> bool {
    match class {
        CharClass::Digits => c.is_ascii_digit(),
        CharClass::Alphanumeric => c.is_ascii_digit() || c.is_ascii_uppercase(),
    }
}

fn fits(layout: &Layout, bban: &str) -> bool {
    let chars: Vec<char> = bban.chars().collect();
    let mut at = 0;
    for segment in &layout.segments {
        for _ in 0..segment.length {
            if at >= chars.len() || !in_class(chars[at], segment.class) {
                return false;
            }
            at += 1;
        }
    }
    at == chars.len()
}

#[test]
fn reference_iban_is_valid() {
    assert!(validate_iban("DE89370400440532013000"));
}

#[test]
fn reference_iban_with_last_digit_changed_is_not_valid() {
    assert!(!validate_iban("DE89370400440532013001"));
}

#[test]
fn reference_iban_is_shown_in_blocks_of_four() {
    assert_eq!(format_iban("DE89370400440532013000"), "DE89 3704 0044 0532 0130 00");
}

#[test]
fn published_example_ibans_are_valid() {
    let examples = [
        "GB82WEST12345698765432",
        "NL91ABNA0417164300",
        "FR1420041010050500013M02606",
        "ES9121000418450200051332",
        "IT60X0542811101000000123456",
        "BE68539007547034",
        "AT611904300234573201",
        "CH9300762011623852957",
        "EE382200221020145685",
        "PL61109010140000071219812874",
        "SE4550000000058398257466",
        "PT50000201231234567890154",
    ];
    for code in examples {
        assert!(validate_iban(code), "{}", code);
    }
}

#[test]
fn published_example_ibans_have_the_length_of_their_layout() {
    let examples = [
        "DE89370400440532013000",
        "GB82WEST12345698765432",
        "NL91ABNA0417164300",
        "FR1420041010050500013M02606",
        "ES9121000418450200051332",
        "IT60X0542811101000000123456",
        "BE68539007547034",
        "AT611904300234573201",
        "CH9300762011623852957",
        "EE382200221020145685",
        "PL61109010140000071219812874",
        "SE4550000000058398257466",
        "PT50000201231234567890154",
    ];
    for code in examples {
        let layout = layout_for(&code[0..2]).unwrap();
        assert_eq!(layout.length, code.len(), "{}", code);
        assert!(fits(&layout, &code[4..]), "{}", code);
    }
}

#[test]
fn validate_takes_letters_of_either_case() {
    assert!(validate_iban("de89370400440532013000"));
    assert!(validate_iban("gb82west12345698765432"));
    assert!(!validate_iban("gb82west12345698765433"));
}

#[test]
fn validate_rejects_what_is_too_short_to_rearrange() {
    assert!(!validate_iban(""));
    assert!(!validate_iban("D"));
    assert!(!validate_iban("DE"));
    assert!(!validate_iban("DE8"));
    assert!(!validate_iban("001"));
}

#[test]
fn validate_goes_by_the_remainder_alone() {
    assert!(validate_iban("0001"));
    assert!(!validate_iban("9800"));
    assert!(!validate_iban("DE89"));
}

#[test]
fn validate_rejects_other_characters() {
    assert!(!validate_iban("DE89 3704 0044 0532 0130 00"));
    assert!(!validate_iban("DE89-370400440532013000"));
    assert!(!validate_iban("DE8937040044053201300\u{660}"));
    assert!(!validate_iban("D\u{c9}89370400440532013000"));
    assert!(!validate_iban("DE89370400440532013000\n"));
}

#[test]
fn validate_rejects_a_wrong_length() {
    assert!(!validate_iban("DE8937040044053201300"));
    assert!(!validate_iban("DE893704004405320130000"));
}

#[test]
fn validate_gives_the_same_answer_every_time() {
    for code in ["DE89370400440532013000", "DE89370400440532013001", "", "??"] {
        assert_eq!(validate_iban(code), validate_iban(code));
    }
}

#[test]
fn format_handles_short_and_odd_lengths() {
    assert_eq!(format_iban(""), "");
    assert_eq!(format_iban("A"), "A");
    assert_eq!(format_iban("ABCD"), "ABCD");
    assert_eq!(format_iban("ABCDE"), "ABCD E");
    assert_eq!(format_iban("ABCDEFGH"), "ABCD EFGH");
    assert_eq!(format_iban("ABCDEFGHI"), "ABCD EFGH I");
    assert_eq!(format_iban("BE68539007547034"), "BE68 5390 0754 7034");
    assert_eq!(format_iban("NO9386011117947"), "NO93 8601 1117 947");
}

#[test]
fn format_does_not_validate() {
    assert_eq!(format_iban("not an iban"), "not  an i ban");
    assert_eq!(format_iban("\u{e9}\u{e9}\u{e9}\u{e9}\u{e9}"), "\u{e9}\u{e9}\u{e9}\u{e9} \u{e9}");
}

#[test]
fn taking_the_spaces_out_of_a_formatted_code_gives_the_code() {
    for code in ["", "A", "ABCD", "ABCDE", "DE89370400440532013000", "MT84MALT011000012345MTLCAST001S"] {
        assert_eq!(format_iban(code).replace(' ', ""), code);
    }
    let mut rng = StdRng::seed_from_u64(11);
    for country in supported_countries() {
        let code = generate_iban(Some(country), &mut rng).unwrap();
        assert_eq!(format_iban(&code).replace(' ', ""), code);
    }
}

#[test]
fn assemble_computes_the_check_digits() {
    assert_eq!(assemble_iban("DE", "370400440532013000").unwrap(), "DE89370400440532013000");
    assert_eq!(assemble_iban("GB", "WEST12345698765432").unwrap(), "GB82WEST12345698765432");
    assert_eq!(assemble_iban("NL", "ABNA0417164300").unwrap(), "NL91ABNA0417164300");
    assert_eq!(
        assemble_iban("FR", "20041010050500013M02606").unwrap(),
        "FR1420041010050500013M02606"
    );
    assert_eq!(assemble_iban("DE", "000000000000000000").unwrap(), "DE36000000000000000000");
}

#[test]
fn assemble_pads_small_check_digits_with_a_zero() {
    assert_eq!(assemble_iban("DE", "244757710465634148").unwrap(), "DE02244757710465634148");
    assert_eq!(assemble_iban("DE", "617907444326067802").unwrap(), "DE03617907444326067802");
}

#[test]
fn assemble_reaches_the_largest_check_digits() {
    assert_eq!(assemble_iban("DE", "706146338969400272").unwrap(), "DE98706146338969400272");
    assert_eq!(assemble_iban("DE", "939072836715422522").unwrap(), "DE97939072836715422522");
}

#[test]
fn assemble_refuses_what_is_not_letters_and_digits() {
    assert_eq!(assemble_iban("D", "370400440532013000"), None);
    assert_eq!(assemble_iban("DEU", "370400440532013000"), None);
    assert_eq!(assemble_iban("", "370400440532013000"), None);
    assert_eq!(assemble_iban("D-", "370400440532013000"), None);
    assert_eq!(assemble_iban("DE", "3704 0044"), None);
    assert_eq!(assemble_iban("DE", "3704\u{e9}"), None);
}

#[test]
fn assembled_codes_are_valid() {
    for (country, bban) in [("DE", "123456789012345678"), ("XY", "A1B2C3"), ("ZZ", ""), ("NL", "abna0417164300")] {
        let code = assemble_iban(country, bban).unwrap();
        assert!(validate_iban(&code), "{}", code);
        assert_eq!(&code[0..2], country);
        assert_eq!(&code[4..], bban);
    }
}

#[test]
fn catalog_gives_germany_its_layout() {
    let layout = layout_for("DE").unwrap();
    assert_eq!(layout.country, "DE");
    assert_eq!(layout.length, 22);
    assert_eq!(
        layout.segments,
        vec![
            Segment { field: Field::BankCode, length: 8, class: CharClass::Digits },
            Segment { field: Field::AccountNumber, length: 10, class: CharClass::Digits },
        ]
    );
}

#[test]
fn catalog_knows_alphanumeric_segments() {
    let layout = layout_for("FR").unwrap();
    assert_eq!(layout.length, 27);
    assert_eq!(
        layout.segments,
        vec![
            Segment { field: Field::BankCode, length: 5, class: CharClass::Digits },
            Segment { field: Field::BranchCode, length: 5, class: CharClass::Digits },
            Segment { field: Field::AccountNumber, length: 11, class: CharClass::Alphanumeric },
            Segment { field: Field::NationalCheck, length: 2, class: CharClass::Digits },
        ]
    );
}

#[test]
fn catalog_has_no_layout_for_other_codes() {
    assert_eq!(layout_for("XX"), None);
    assert_eq!(layout_for(""), None);
    assert_eq!(layout_for("de"), None);
    assert_eq!(layout_for("DEU"), None);
    assert_eq!(layout_for("US"), None);
}

#[test]
fn catalog_rows_are_consistent() {
    let table = layouts();
    assert_eq!(table.len(), 32);
    for layout in &table {
        let national: usize = layout.segments.iter().map(|segment| segment.length).sum();
        assert_eq!(layout.length, national + 4, "{}", layout.country);
        assert_eq!(layout.country.len(), 2);
        assert!(layout.country.chars().all(|c| c.is_ascii_uppercase()));
        assert_eq!(layout_for(layout.country).as_ref(), Some(layout));
    }
}

#[test]
fn catalog_lengths_are_those_of_the_registry() {
    let expected = [
        ("AT", 20), ("BE", 16), ("BG", 22), ("CH", 21), ("CY", 28), ("CZ", 24), ("DE", 22),
        ("DK", 18), ("EE", 20), ("ES", 24), ("FI", 18), ("FR", 27), ("GB", 22), ("GR", 27),
        ("HR", 21), ("HU", 28), ("IE", 22), ("IS", 26), ("IT", 27), ("LI", 21), ("LT", 20),
        ("LU", 20), ("LV", 21), ("MT", 31), ("NL", 18), ("NO", 15), ("PL", 28), ("PT", 25),
        ("RO", 24), ("SE", 24), ("SI", 19), ("SK", 24),
    ];
    for (country, length) in expected {
        assert_eq!(layout_for(country).unwrap().length, length, "{}", country);
    }
}

#[test]
fn supported_countries_are_the_catalog_in_order() {
    let countries = supported_countries();
    assert_eq!(countries.len(), 32);
    assert_eq!(countries[0], "AT");
    assert_eq!(countries[31], "SK");
    assert!(countries.contains(&"DE"));
    assert!(countries.contains(&"EE"));
    assert!(countries.windows(2).all(|pair| pair[0] < pair[1]));
    let table = layouts();
    for (country, layout) in countries.iter().zip(table.iter()) {
        assert_eq!(*country, layout.country);
    }
}

#[test]
fn generated_ibans_are_valid_for_every_country() {
    let mut rng = StdRng::seed_from_u64(2024);
    for country in supported_countries() {
        for _ in 0..50 {
            let code = generate_iban(Some(country), &mut rng).unwrap();
            assert!(validate_iban(&code), "{}", code);
        }
    }
}

#[test]
fn generated_ibans_rearranged_leave_the_remainder_one() {
    let mut rng = StdRng::seed_from_u64(97);
    for country in supported_countries() {
        let code = generate_iban(Some(country), &mut rng).unwrap();
        let mut turned = String::from(&code[4..]);
        turned.push_str(&code[0..4]);
        let digits = eu_test_data_generator::checksum::expand(&turned);
        assert_eq!(eu_test_data_generator::checksum::mod97(&digits), 1, "{}", code);
    }
}

#[test]
fn generated_ibans_have_the_declared_length_and_shape() {
    let mut rng = StdRng::seed_from_u64(5);
    for layout in layouts() {
        for _ in 0..20 {
            let code = generate_iban(Some(layout.country), &mut rng).unwrap();
            assert_eq!(code.len(), layout.length, "{}", code);
            assert_eq!(&code[0..2], layout.country);
            assert!(code[2..4].chars().all(|c| c.is_ascii_digit()), "{}", code);
            assert!(fits(&layout, &code[4..]), "{}", code);
            assert_eq!(assemble_iban(layout.country, &code[4..]).unwrap(), code);
        }
    }
}

#[test]
fn generated_ibans_for_a_drawn_country_are_valid() {
    let mut rng = StdRng::seed_from_u64(31);
    let countries = supported_countries();
    let mut seen = Vec::new();
    for _ in 0..400 {
        let code = generate_iban(None, &mut rng).unwrap();
        assert!(validate_iban(&code), "{}", code);
        let layout = layout_for(&code[0..2]).unwrap();
        assert!(countries.contains(&layout.country));
        assert_eq!(code.len(), layout.length);
        if !seen.contains(&layout.country) {
            seen.push(layout.country);
        }
    }
    assert!(seen.len() > 16);
}

#[test]
fn generate_fails_for_a_country_without_layout() {
    let mut rng = StdRng::seed_from_u64(1);
    assert_eq!(generate_iban(Some("XX"), &mut rng), Err(GenerationError::UnsupportedCountry));
    assert_eq!(generate_iban(Some(""), &mut rng), Err(GenerationError::UnsupportedCountry));
    assert_eq!(generate_iban(Some("de"), &mut rng), Err(GenerationError::UnsupportedCountry));
    assert_eq!(generate_iban(Some("US"), &mut rng), Err(GenerationError::UnsupportedCountry));
}

#[test]
fn generation_is_repeatable_under_one_seed() {
    let mut first = StdRng::seed_from_u64(1234);
    let mut second = StdRng::seed_from_u64(1234);
    for _ in 0..20 {
        assert_eq!(generate_iban(None, &mut first), generate_iban(None, &mut second));
    }
}

#[test]
fn generation_varies_within_one_seed() {
    let mut rng = StdRng::seed_from_u64(8);
    let first = generate_iban(Some("DE"), &mut rng).unwrap();
    let mut differs = false;
    for _ in 0..10 {
        differs = differs || generate_iban(Some("DE"), &mut rng).unwrap() != first;
    }
    assert!(differs);
}

#[test]
fn random_bban_fits_its_layout() {
    let mut rng = StdRng::seed_from_u64(77);
    for layout in layouts() {
        for _ in 0..20 {
            let bban = random_bban(&layout, &mut rng);
            assert_eq!(bban.len() + 4, layout.length);
            assert!(fits(&layout, &bban), "{} {}", layout.country, bban);
        }
    }
}

#[test]
fn random_bban_uses_letters_where_the_class_has_them() {
    let mut rng = StdRng::seed_from_u64(3);
    let layout = layout_for("MT").unwrap();
    let mut letters = false;
    let mut digits = false;
    for _ in 0..20 {
        let bban = random_bban(&layout, &mut rng);
        letters = letters || bban.chars().any(|c| c.is_ascii_uppercase());
        digits = digits || bban.chars().any(|c| c.is_ascii_digit());
    }
    assert!(letters && digits);
}

#[test]
fn changing_one_digit_of_a_generated_iban_makes_it_invalid() {
    let mut rng = StdRng::seed_from_u64(64);
    for country in supported_countries() {
        let code = generate_iban(Some(country), &mut rng).unwrap();
        let mut chars: Vec<char> = code.chars().collect();
        let at = chars.iter().rposition(|c| c.is_ascii_digit()).unwrap();
        let digit = chars[at].to_digit(10).unwrap();
        chars[at] = char::from_digit((digit + 1) % 10, 10).unwrap();
        let changed: String = chars.into_iter().collect();
        assert!(!validate_iban(&changed), "{} {}", code, changed);
    }
}

#[test]
fn changing_any_one_digit_of_the_reference_iban_makes_it_invalid() {
    let code = "DE89370400440532013000";
    for at in 2..code.len() {
        for digit in 0..10u32 {
            let mut chars: Vec<char> = code.chars().collect();
            let new = char::from_digit(digit, 10).unwrap();
            if chars[at] == new {
                continue;
            }
            chars[at] = new;
            let changed: String = chars.into_iter().collect();
            assert!(!validate_iban(&changed), "{}", changed);
        }
    }
}
