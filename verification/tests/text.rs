use ferrite_sfu::names::{comes_before, insert_name, remove_name, same_names};
use ferrite_sfu::sfu::PeerId;
use ferrite_sfu::text::{bounded_number, decimal_string, lowers_to, rest_after_last, trim};

#[test]
fn numbers_are_written_in_decimal() {
    assert_eq!(decimal_string(0), "0");
    assert_eq!(decimal_string(1234567890), "1234567890");
    assert_eq!(decimal_string(u64::MAX), "18446744073709551615");
    assert_eq!(PeerId(42).as_string(), "42");
}

#[test]
fn white_space_is_stripped_as_unicode_has_it() {
    assert_eq!(trim(" \u{a0}\u{3000}a b\u{2003}\n"), "a b");
    assert_eq!(trim("   "), "");
    assert_eq!(trim("a"), "a");
}

#[test]
fn words_are_compared_without_capitals() {
    assert!(lowers_to("YeS", "yes"));
    assert!(!lowers_to("yes!", "yes"));
    assert!(!lowers_to("\u{212a}", "k"));
}

#[test]
fn numbers_are_read_within_bounds() {
    assert_eq!(bounded_number("007", 2, 64), Some(7));
    assert_eq!(bounded_number("+7", 2, 64), Some(7));
    assert_eq!(bounded_number("99999999999999999999999", 2, 64), None);
    assert_eq!(bounded_number("+", 2, 64), None);
    assert_eq!(bounded_number("1", 2, 64), None);
}

#[test]
fn the_rest_follows_the_last_mark() {
    assert_eq!(rest_after_last("a:b:c", ':'), "c");
    assert_eq!(rest_after_last("abc", ':'), "abc");
    assert_eq!(rest_after_last("abc:", ':'), "");
}

#[test]
fn names_are_kept_in_dictionary_order() {
    assert!(comes_before("10", "9"));
    assert!(comes_before("1", "10"));
    assert!(!comes_before("2", "2"));
    let mut names: Vec<String> = Vec::new();
    for name in ["9", "10", "2"] {
        insert_name(&mut names, name.to_string());
    }
    assert_eq!(names, vec!["10".to_string(), "2".to_string(), "9".to_string()]);
    remove_name(&mut names, "2");
    assert!(same_names(&names, &vec!["10".to_string(), "9".to_string()]));
}
