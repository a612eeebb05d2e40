use agent_workspace_api::clock::{utc_now_text, utc_text, utc_text_in_days, UtcParts};
use agent_workspace_api::fmt::{decimal_string, i64_string, parse_u64, signed_padded_string, zero_padded};
use agent_workspace_api::text::{compare_text, is_blank_str, is_kebab_str, str_eq, trim_str};

#[test]
fn text_helpers() {
    assert_eq!(trim_str("  a b \u{3000}"), "a b");
    assert_eq!(trim_str("\t\n"), "");
    assert!(is_blank_str(" \u{a0}\u{2003}"));
    assert!(!is_blank_str(" x "));
    assert!(is_kebab_str("main-project-2"));
    assert!(!is_kebab_str("-main"));
    assert!(!is_kebab_str("main-"));
    assert!(!is_kebab_str("Main"));
    assert!(is_kebab_str(""));
    assert!(str_eq("abc", "abc"));
    assert!(!str_eq("abc", "abd"));
    assert_eq!(compare_text("a", "b"), -1);
    assert_eq!(compare_text("ab", "a"), 1);
    assert_eq!(compare_text("2024-01-02", "2024-01-02"), 0);
    assert_eq!(compare_text("é", "z"), 1);
}

#[test]
fn numbers_in_text() {
    assert_eq!(decimal_string(0), "0");
    assert_eq!(decimal_string(u64::MAX), "18446744073709551615");
    assert_eq!(zero_padded("7".to_string(), 3), "007");
    assert_eq!(zero_padded("1234".to_string(), 2), "1234");
    assert_eq!(signed_padded_string(-5, 4), "-005");
    assert_eq!(signed_padded_string(2024, 4), "2024");
    assert_eq!(i64_string(i64::MIN), "-9223372036854775808");
    assert_eq!(i64_string(-12), "-12");
    assert_eq!(parse_u64("00012"), Some(12));
    assert_eq!(parse_u64("1 2"), None);
    assert_eq!(parse_u64("+"), None);
    for n in [0u64, 9, 10, 4096, u64::MAX] {
        assert_eq!(parse_u64(&decimal_string(n)), Some(n));
    }
}

#[test]
fn timestamps() {
    let p = UtcParts { year: 2024, month: 3, day: 9, hour: 7, minute: 5, second: 0 };
    assert_eq!(utc_text(&p), "2024-03-09 07:05:00");
    let old = UtcParts { year: -44, month: 3, day: 15, hour: 12, minute: 0, second: 0 };
    assert_eq!(utc_text(&old), "-044-03-15 12:00:00");
    let now = utc_now_text();
    assert_eq!(now.len(), 19);
    let later = utc_text_in_days(7).unwrap();
    assert!(later > now);
}

#[test]
fn zero_days_from_now_is_always_a_date() {
    let t = agent_workspace_api::clock::utc_text_in_days(0).unwrap();
    assert_eq!(t.len(), 19);
    assert_eq!(&t[10..11], " ");
}
