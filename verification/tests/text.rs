use avm_core::text::{i32_to_string, parse_i32, str_eq, str_eq_ignore_case, str_names_match, u32_to_string};

#[test]
fn integers_are_written_in_decimal_notation() {
    assert_eq!(i32_to_string(0), "0");
    assert_eq!(i32_to_string(7), "7");
    assert_eq!(i32_to_string(-7), "-7");
    assert_eq!(i32_to_string(1234567890), "1234567890");
    assert_eq!(i32_to_string(i32::MAX), "2147483647");
    assert_eq!(i32_to_string(i32::MIN), "-2147483648");
    assert_eq!(u32_to_string(u32::MAX), "4294967295");
}

#[test]
fn decimal_notation_is_read_back() {
    assert_eq!(parse_i32("0"), Some(0));
    assert_eq!(parse_i32("42"), Some(42));
    assert_eq!(parse_i32("-42"), Some(-42));
    assert_eq!(parse_i32("+42"), Some(42));
    assert_eq!(parse_i32("007"), Some(7));
    assert_eq!(parse_i32("2147483647"), Some(i32::MAX));
    assert_eq!(parse_i32("-2147483648"), Some(i32::MIN));
    for i in [0, 1, -1, 99, -100, i32::MAX, i32::MIN] {
        assert_eq!(parse_i32(&i32_to_string(i)), Some(i));
    }
}

#[test]
fn what_is_no_integer_is_not_read() {
    assert_eq!(parse_i32(""), None);
    assert_eq!(parse_i32("-"), None);
    assert_eq!(parse_i32("+"), None);
    assert_eq!(parse_i32("1.5"), None);
    assert_eq!(parse_i32("12a"), None);
    assert_eq!(parse_i32(" 1"), None);
    assert_eq!(parse_i32("2147483648"), None);
    assert_eq!(parse_i32("-2147483649"), None);
    assert_eq!(parse_i32("99999999999999999999"), None);
    assert_eq!(parse_i32("length"), None);
}

#[test]
fn the_same_answers_as_the_standard_library() {
    for s in ["", "0", "-0", "+0", "00012", "-", "1e3", "2147483647", "2147483648", "-2147483648", "٣"] {
        assert_eq!(parse_i32(s), s.parse::<i32>().ok(), "parsing {:?}", s);
    }
}

#[test]
fn names_match_with_and_without_regard_to_case() {
    assert!(str_eq("abc", "abc"));
    assert!(!str_eq("abc", "abd"));
    assert!(!str_eq("abc", "ab"));
    assert!(str_eq("", ""));
    assert!(str_eq_ignore_case("Length", "lENGTH"));
    assert!(!str_eq_ignore_case("length", "lengt"));
    assert!(!str_eq_ignore_case("a1", "a2"));
    assert!(str_names_match("Foo", "foo", false));
    assert!(!str_names_match("Foo", "foo", true));
    assert!(str_names_match("héllo", "héllo", true));
    assert!(!str_eq_ignore_case("É", "é"));
}
