use tfpin::text::{debug_str, i64_text, join_strings, replace_str, str_eq};
use tfpin::value::float_eq;

#[test]
fn i64_text_writes_decimal() {
    assert_eq!(i64_text(0), "0");
    assert_eq!(i64_text(42), "42");
    assert_eq!(i64_text(-7), "-7");
    assert_eq!(i64_text(i64::MAX), i64::MAX.to_string());
    assert_eq!(i64_text(i64::MIN), i64::MIN.to_string());
}

#[test]
fn debug_str_quotes_and_escapes() {
    assert_eq!(debug_str("~> 6.24"), "\"~> 6.24\"");
    assert_eq!(debug_str("a\"b"), "\"a\\\"b\"");
}

#[test]
fn replace_str_replaces_every_occurrence() {
    assert_eq!(replace_str("acme/infra/{dir}", "{dir}", "platform/foo"), "acme/infra/platform/foo");
    assert_eq!(replace_str("{dir}/x/{dir}", "{dir}", "d"), "d/x/d");
    assert_eq!(replace_str("no placeholder", "{dir}", "d"), "no placeholder");
    assert_eq!(replace_str("{{dir}}", "{dir}", "d"), "{d}");
    assert_eq!(replace_str("aaa", "aa", "b"), "ba");
    assert_eq!(replace_str("", "{dir}", "d"), "");
}

#[test]
fn join_strings_separates_neighbours() {
    assert_eq!(join_strings(&vec![], "/"), "");
    assert_eq!(join_strings(&vec!["a".to_string()], "/"), "a");
    assert_eq!(join_strings(&vec!["a".to_string(), "b".to_string(), "c".to_string()], "/"), "a/b/c");
}

#[test]
fn str_eq_compares_text() {
    assert!(str_eq("abc", "abc"));
    assert!(!str_eq("abc", "abd"));
}

#[test]
fn float_eq_follows_ieee() {
    assert!(float_eq(1.5f64.to_bits(), 1.5f64.to_bits()));
    assert!(float_eq(0.0f64.to_bits(), (-0.0f64).to_bits()));
    assert!(!float_eq(f64::NAN.to_bits(), f64::NAN.to_bits()));
    assert!(!float_eq(1.0f64.to_bits(), 2.0f64.to_bits()));
}
