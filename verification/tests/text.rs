use termina::text::{starts_with, to_lowercase, to_uppercase_char, trim_str};

#[test]
fn trim_removes_unicode_whitespace_on_both_ends() {
    assert_eq!(trim_str("  abc \t\n"), "abc");
    assert_eq!(trim_str("\u{3000}x y\u{a0}"), "x y");
    assert_eq!(trim_str("   "), "");
    assert_eq!(trim_str(""), "");
}

#[test]
fn starts_with_compares_prefixes() {
    assert!(starts_with("https://x", "https://"));
    assert!(!starts_with("http://x", "https://"));
    assert!(starts_with("abc", ""));
    assert!(!starts_with("ab", "abc"));
}

#[test]
fn lowercase_and_uppercase_follow_unicode() {
    assert_eq!(to_lowercase("MyApp"), "myapp");
    assert_eq!(to_lowercase("ÀÉ"), "àé");
    assert_eq!(to_uppercase_char('a'), "A");
    assert_eq!(to_uppercase_char('ß'), "SS");
}
