use eu_test_data_generator::checksum::{expand, is_alphanumeric, mod97};
use eu_test_data_generator::text::{same_text, to_chars};

#[test]
fn expand_keeps_digits() {
    assert_eq!(expand("0123456789"), "0123456789");
}

#[test]
fn expand_writes_letters_as_two_digits() {
    assert_eq!(expand("A"), "10");
    assert_eq!(expand("Z"), "35");
    assert_eq!(expand("DE"), "1314");
    assert_eq!(expand("WEST12345698765432GB82"), "3214282912345698765432161182");
}

#[test]
fn expand_reads_lower_case_as_upper_case() {
    assert_eq!(expand("a"), "10");
    assert_eq!(expand("z"), "35");
    assert_eq!(expand("de89"), expand("DE89"));
}

#[test]
fn expand_of_nothing_is_nothing() {
    assert_eq!(expand(""), "");
}

#[test]
fn mod97_of_small_numbers() {
    assert_eq!(mod97(""), 0);
    assert_eq!(mod97("0"), 0);
    assert_eq!(mod97("1"), 1);
    assert_eq!(mod97("96"), 96);
    assert_eq!(mod97("97"), 0);
    assert_eq!(mod97("98"), 1);
    assert_eq!(mod97("0098"), 1);
    assert_eq!(mod97("9700"), 0);
}

#[test]
fn mod97_of_a_number_beyond_any_machine_word() {
    assert_eq!(mod97("3214282912345698765432161182"), 1);
    assert_eq!(mod97("3214282912345698765432161100"), 16);
    assert_eq!(mod97("370400440532013000131489"), 1);
}

#[test]
fn mod97_stays_below_97() {
    let mut digits = String::new();
    for i in 0..400u32 {
        digits.push(char::from_digit(i * 7 % 10, 10).unwrap());
        assert!(mod97(&digits) <= 96);
    }
}

#[test]
fn is_alphanumeric_tells_letters_and_digits_from_the_rest() {
    assert!(is_alphanumeric(""));
    assert!(is_alphanumeric("DE89370400440532013000"));
    assert!(is_alphanumeric("abcXYZ019"));
    assert!(!is_alphanumeric("DE89 3704"));
    assert!(!is_alphanumeric("DE89-3704"));
    assert!(!is_alphanumeric("D\u{c9}89"));
    assert!(!is_alphanumeric("\u{663}"));
    assert!(!is_alphanumeric("/"));
    assert!(!is_alphanumeric(":"));
    assert!(!is_alphanumeric("@"));
    assert!(!is_alphanumeric("["));
    assert!(!is_alphanumeric("`"));
    assert!(!is_alphanumeric("{"));
}

#[test]
fn to_chars_gives_the_characters_in_order() {
    assert_eq!(to_chars("a\u{e9}9"), vec!['a', '\u{e9}', '9']);
    assert_eq!(to_chars(""), Vec::<char>::new());
}

#[test]
fn same_text_compares_character_by_character() {
    assert!(same_text("", ""));
    assert!(same_text("DE", "DE"));
    assert!(!same_text("DE", "DK"));
    assert!(!same_text("DE", "DEU"));
    assert!(!same_text("DE", "de"));
}
