use eocene::text::eq_ignore_ascii_case;
use eocene::text::i64_to_string;
use eocene::text::parse_i64_str;
use eocene::text::str_eq;
use eocene::text::str_lt;

#[test]
fn parses_decimal_integers_like_the_evaluator_expects() {
    assert_eq!(parse_i64_str("0"), Some(0));
    assert_eq!(parse_i64_str("9000"), Some(9000));
    assert_eq!(parse_i64_str("+42"), Some(42));
    assert_eq!(parse_i64_str("-42"), Some(-42));
    assert_eq!(parse_i64_str("007"), Some(7));
    assert_eq!(parse_i64_str("9223372036854775807"), Some(i64::MAX));
    assert_eq!(parse_i64_str("-9223372036854775808"), Some(i64::MIN));
    assert_eq!(parse_i64_str("9223372036854775808"), None);
    assert_eq!(parse_i64_str("-9223372036854775809"), None);
    assert_eq!(parse_i64_str(""), None);
    assert_eq!(parse_i64_str("-"), None);
    assert_eq!(parse_i64_str("12a"), None);
    assert_eq!(parse_i64_str("Alice"), None);
}

#[test]
fn renders_decimal_integers() {
    assert_eq!(i64_to_string(0), "0");
    assert_eq!(i64_to_string(7), "7");
    assert_eq!(i64_to_string(12000), "12000");
    assert_eq!(i64_to_string(-5), "-5");
    assert_eq!(i64_to_string(i64::MAX), "9223372036854775807");
    assert_eq!(i64_to_string(i64::MIN), "-9223372036854775808");
}

#[test]
fn render_then_parse_round_trips() {
    for v in [0i64, 1, -1, 9000, -12000, i64::MAX, i64::MIN] {
        assert_eq!(parse_i64_str(&i64_to_string(v)), Some(v));
    }
}

#[test]
fn orders_text_lexicographically() {
    assert!(str_lt("Alice", "Bob"));
    assert!(!str_lt("Bob", "Alice"));
    assert!(str_lt("abc", "abd"));
    assert!(str_lt("ab", "abc"));
    assert!(!str_lt("abc", "abc"));
    assert!(str_lt("", "a"));
}

#[test]
fn compares_text_for_equality() {
    assert!(str_eq("Ivy", "Ivy"));
    assert!(!str_eq("Ivy", "IvyX"));
    assert!(!str_eq("Ivy", "ivy"));
    assert!(eq_ignore_ascii_case("SeLeCt", "select"));
    assert!(eq_ignore_ascii_case("ORDERBY", "orderby"));
    assert!(!eq_ignore_ascii_case("order", "orderby"));
}
