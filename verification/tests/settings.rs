use rinse::settings::{flag_setting, number_setting, text_setting};

#[test]
fn numbers_give_way_to_defaults() {
    assert_eq!(number_setting(None, u64::MAX, 8), 8);
    assert_eq!(number_setting(Some("12"), u64::MAX, 8), 12);
    assert_eq!(number_setting(Some("+12"), u64::MAX, 8), 12);
    assert_eq!(number_setting(Some("-1"), u64::MAX, 8), 8);
    assert_eq!(number_setting(Some(" 1"), u64::MAX, 8), 8);
    assert_eq!(number_setting(Some(""), u64::MAX, 8), 8);
    assert_eq!(number_setting(Some("65535"), 65_535, 587), 65_535);
    assert_eq!(number_setting(Some("65536"), 65_535, 587), 587);
    assert_eq!(number_setting(Some("18446744073709551615"), u64::MAX, 8), u64::MAX);
    assert_eq!(number_setting(Some("18446744073709551616"), u64::MAX, 8), 8);
}

#[test]
fn switches_give_way_to_defaults() {
    assert!(flag_setting(None, true));
    assert!(!flag_setting(Some("false"), true));
    assert!(flag_setting(Some("true"), false));
    assert!(flag_setting(Some("TRUE"), true));
    assert!(!flag_setting(Some("1"), false));
}

#[test]
fn texts_give_way_to_defaults() {
    assert_eq!(text_setting(None, "storage"), "storage");
    assert_eq!(text_setting(Some("x".to_string()), "storage"), "x");
    assert_eq!(text_setting(Some(String::new()), "storage"), "");
}
