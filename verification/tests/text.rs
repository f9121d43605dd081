use rinse::text::{
    chars_of, contains, dotted_address, eq_ignoring_case, find, join_words, parse_number,
    push_decimal, push_signed, same_text, split_words, text_of, trim,
};

#[test]
fn texts_are_trimmed_and_split() {
    assert_eq!(trim(" \t a b \u{a0}\n"), "a b");
    assert_eq!(trim("   "), "");
    assert_eq!(split_words(&chars_of("  one two\tthree ")), vec!["one", "two", "three"]);
    assert!(split_words(&chars_of("  ")).is_empty());
    assert_eq!(join_words(&vec!["a".to_string(), "b".to_string()]), "a b");
    assert_eq!(join_words(&vec![]), "");
}

#[test]
fn texts_are_searched() {
    assert!(contains("banana", "nan"));
    assert!(contains("banana", ""));
    assert!(!contains("banana", "nab"));
    assert_eq!(find(&chars_of("banana"), &chars_of("an")), Some(1));
    assert_eq!(find(&chars_of("banana"), &chars_of("x")), None);
    assert_eq!(text_of(&chars_of("banana"), 2, 4), "na");
    assert!(same_text("ä", "ä"));
    assert!(!same_text("ä", "a"));
}

#[test]
fn case_of_ascii_letters_can_be_passed_over() {
    assert!(eq_ignoring_case("AbZ09", "aBz09"));
    assert!(!eq_ignoring_case("[", "{"));
    assert!(!eq_ignoring_case("Ä", "ä"));
    assert!(!eq_ignoring_case("a", "ab"));
}

#[test]
fn numbers_are_written_and_read() {
    for n in [0, 9, 10, 123_456_789, u64::MAX] {
        let mut s = String::new();
        push_decimal(&mut s, n);
        assert_eq!(s, n.to_string());
        let chars = chars_of(&s);
        assert_eq!(parse_number(&chars, 0, chars.len()), Some(n));
    }
    for n in [0, -1, i64::MIN, i64::MAX] {
        let mut s = String::from("n=");
        push_signed(&mut s, n);
        assert_eq!(s, format!("n={}", n));
    }
    assert_eq!(parse_number(&chars_of("x12y"), 1, 3), Some(12));
    assert_eq!(parse_number(&chars_of("+"), 0, 1), None);
    assert_eq!(parse_number(&chars_of("++1"), 0, 3), None);
    assert_eq!(dotted_address(1, 20, 0, 255), "1.20.0.255");
}
