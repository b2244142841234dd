use eu_test_data_generator::batch::{
    iban_lines, iban_rows, id_lines, id_rows, year_from_text, IbanRow, IdRow,
};
use eu_test_data_generator::iban::{format_iban, validate_iban};
use eu_test_data_generator::personal_id::date::Gender;
use eu_test_data_generator::personal_id::{GenOptions, ParsedFields, Registry};
use rand::rngs::StdRng;
use rand::SeedableRng;

fn iban_row(raw: &str) -> IbanRow {
    IbanRow { raw: raw.to_string(), formatted: format_iban(raw), valid: validate_iban(raw) }
}

fn id_row(code: &str) -> IdRow {
    IdRow { code: code.to_string(), gender: String::new(), dob: String::new(), valid: true }
}

#[test]
fn iban_rows_are_as_many_as_asked_for() {
    let mut rng = StdRng::seed_from_u64(1);
    assert_eq!(iban_rows(Some("DE"), 0, &mut rng).len(), 0);
    assert_eq!(iban_rows(Some("DE"), 1, &mut rng).len(), 1);
    assert_eq!(iban_rows(Some("MT"), 100, &mut rng).len(), 100);
    assert_eq!(iban_rows(None, 37, &mut rng).len(), 37);
}

#[test]
fn iban_rows_are_none_for_a_country_without_layout() {
    let mut rng = StdRng::seed_from_u64(2);
    assert_eq!(iban_rows(Some("XX"), 5, &mut rng), vec![]);
    assert_eq!(iban_rows(Some("Random"), 5, &mut rng), vec![]);
    assert_eq!(iban_rows(Some(""), 5, &mut rng), vec![]);
}

#[test]
fn iban_rows_hold_valid_codes_and_their_blocks() {
    let mut rng = StdRng::seed_from_u64(3);
    for row in iban_rows(Some("FR"), 50, &mut rng) {
        assert!(row.valid);
        assert!(validate_iban(&row.raw));
        assert_eq!(row.formatted, format_iban(&row.raw));
        assert_eq!(row.formatted.replace(' ', ""), row.raw);
        assert_eq!(&row.raw[0..2], "FR");
        assert_eq!(row.raw.len(), 27);
    }
    for row in iban_rows(None, 50, &mut rng) {
        assert!(row.valid);
        assert!(validate_iban(&row.raw));
        assert_eq!(row.formatted, format_iban(&row.raw));
    }
}

#[test]
fn id_rows_are_as_many_as_asked_for() {
    let registry = Registry::new();
    let mut rng = StdRng::seed_from_u64(4);
    let options = GenOptions { gender: None, year: None };
    for (country, _) in registry.list_countries() {
        assert_eq!(id_rows(&registry, country, &options, 0, &mut rng).len(), 0);
        assert_eq!(id_rows(&registry, country, &options, 25, &mut rng).len(), 25);
    }
}

#[test]
fn id_rows_are_none_where_nothing_can_be_generated() {
    let registry = Registry::new();
    let mut rng = StdRng::seed_from_u64(5);
    let options = GenOptions { gender: None, year: None };
    assert_eq!(id_rows(&registry, "DE", &options, 5, &mut rng), vec![]);
    let options = GenOptions { gender: Some(Gender::Male), year: Some(1700) };
    assert_eq!(id_rows(&registry, "EE", &options, 5, &mut rng), vec![]);
    let options = GenOptions { gender: None, year: Some(2150) };
    assert_eq!(id_rows(&registry, "RO", &options, 5, &mut rng), vec![]);
    assert_eq!(id_rows(&registry, "EE", &options, 5, &mut rng).len(), 5);
}

#[test]
fn id_rows_show_what_the_numbers_parse_to() {
    let registry = Registry::new();
    let mut rng = StdRng::seed_from_u64(6);
    let options = GenOptions { gender: Some(Gender::Female), year: Some(1987) };
    for (country, _) in registry.list_countries() {
        for row in id_rows(&registry, country, &options, 20, &mut rng) {
            assert!(row.valid);
            assert_eq!(row.gender, "Female");
            assert_eq!(&row.dob[0..5], "1987-");
            assert_eq!(row.dob.len(), 10);
            let parsed = registry.parse(country, &row.code).unwrap();
            assert_eq!(IdRow::new(parsed), row);
        }
    }
}

#[test]
fn id_row_leaves_unread_fields_empty() {
    let fields = ParsedFields { code: "07605030299".to_string(), gender: None, dob: None, valid: false };
    assert_eq!(
        IdRow::new(fields),
        IdRow { code: "07605030299".to_string(), gender: String::new(), dob: String::new(), valid: false }
    );
    let fields = ParsedFields {
        code: "37605030299".to_string(),
        gender: Some("Male".to_string()),
        dob: Some("1976-05-03".to_string()),
        valid: true,
    };
    assert_eq!(
        IdRow::new(fields),
        IdRow {
            code: "37605030299".to_string(),
            gender: "Male".to_string(),
            dob: "1976-05-03".to_string(),
            valid: true,
        }
    );
}

#[test]
fn iban_lines_join_the_codes_with_line_feeds() {
    let rows = vec![iban_row("DE89370400440532013000"), iban_row("BE68539007547034")];
    assert_eq!(iban_lines(&rows, false), "DE89370400440532013000\nBE68539007547034");
    assert_eq!(iban_lines(&rows, true), "DE89 3704 0044 0532 0130 00\nBE68 5390 0754 7034");
    assert_eq!(iban_lines(&rows[0..1].to_vec(), true), "DE89 3704 0044 0532 0130 00");
    assert_eq!(iban_lines(&vec![], true), "");
    assert_eq!(iban_lines(&vec![], false), "");
}

#[test]
fn id_lines_join_the_numbers_with_line_feeds() {
    let rows = vec![id_row("37605030299"), id_row("7523169263"), id_row("")];
    assert_eq!(id_lines(&rows), "37605030299\n7523169263\n");
    assert_eq!(id_lines(&rows[0..1].to_vec()), "37605030299");
    assert_eq!(id_lines(&vec![]), "");
}

#[test]
fn year_is_read_from_digits() {
    assert_eq!(year_from_text("1990"), Some(1990));
    assert_eq!(year_from_text("0"), Some(0));
    assert_eq!(year_from_text("7"), Some(7));
    assert_eq!(year_from_text("65535"), Some(65535));
    assert_eq!(year_from_text("01990"), Some(1990));
    assert_eq!(year_from_text("000000000000000000001990"), Some(1990));
    assert_eq!(year_from_text("+1990"), Some(1990));
    assert_eq!(year_from_text("+0"), Some(0));
}

#[test]
fn year_is_not_read_from_anything_else() {
    assert_eq!(year_from_text(""), None);
    assert_eq!(year_from_text("+"), None);
    assert_eq!(year_from_text("-1990"), None);
    assert_eq!(year_from_text("-0"), None);
    assert_eq!(year_from_text("++1990"), None);
    assert_eq!(year_from_text("1990+"), None);
    assert_eq!(year_from_text(" 1990"), None);
    assert_eq!(year_from_text("1990 "), None);
    assert_eq!(year_from_text("19 90"), None);
    assert_eq!(year_from_text("1_990"), None);
    assert_eq!(year_from_text("199O"), None);
    assert_eq!(year_from_text("any"), None);
    assert_eq!(year_from_text("1990.0"), None);
    assert_eq!(year_from_text("\u{661}\u{669}\u{669}\u{660}"), None);
    assert_eq!(year_from_text("65536"), None);
    assert_eq!(year_from_text("99999"), None);
    assert_eq!(year_from_text("4294967296"), None);
    assert_eq!(year_from_text("18446744073709551616"), None);
}

#[test]
fn year_is_read_as_the_standard_library_reads_it() {
    let texts = [
        "", "+", "-", "0", "+0", "-0", "1990", "+1990", "-1990", "01990", "65535", "65536",
        "065535", "99999", " 1990", "1990 ", "1 990", "0x7c6", "1e3", "any", "++1", "+-1",
    ];
    for text in texts {
        assert_eq!(year_from_text(text), text.parse::<u16>().ok(), "{:?}", text);
    }
}
