use git_todo::text::{join_from, parse_i32, str_eq, trim};

#[test]
fn trim_removes_surrounding_whitespace_only() {
    assert_eq!(trim("  a b  "), "a b");
    assert_eq!(trim("\t\nnote\r "), "note");
    assert_eq!(trim("inner  kept"), "inner  kept");
    assert_eq!(trim(""), "");
    assert_eq!(trim("   "), "");
}

#[test]
fn join_inserts_single_blanks() {
    let args: Vec<String> = vec!["prog", "a", "b c", "d"].iter().map(|s| s.to_string()).collect();
    assert_eq!(join_from(&args, 1), "a b c d");
    assert_eq!(join_from(&args, 3), "d");
    assert_eq!(join_from(&args, 4), "");
}

#[test]
fn parse_accepts_exactly_signed_decimal_i32() {
    assert_eq!(parse_i32("0"), Some(0));
    assert_eq!(parse_i32("42"), Some(42));
    assert_eq!(parse_i32("+7"), Some(7));
    assert_eq!(parse_i32("-7"), Some(-7));
    assert_eq!(parse_i32("007"), Some(7));
    assert_eq!(parse_i32("2147483647"), Some(i32::MAX));
    assert_eq!(parse_i32("-2147483648"), Some(i32::MIN));
    assert_eq!(parse_i32("2147483648"), None);
    assert_eq!(parse_i32("-2147483649"), None);
    assert_eq!(parse_i32(""), None);
    assert_eq!(parse_i32("+"), None);
    assert_eq!(parse_i32("-"), None);
    assert_eq!(parse_i32("1.5"), None);
    assert_eq!(parse_i32(" 1"), None);
    assert_eq!(parse_i32("1 "), None);
    assert_eq!(parse_i32("--1"), None);
}

#[test]
fn parse_matches_the_standard_parser_on_samples() {
    for s in ["0", "-0", "+12", "99", "-99", "2147483647", "-2147483648", "21474836470", "x", ""] {
        assert_eq!(parse_i32(s), s.parse::<i32>().ok(), "disagreement on {s:?}");
    }
}

#[test]
fn str_eq_compares_contents() {
    assert!(str_eq("abc", "abc"));
    assert!(!str_eq("abc", "abd"));
    assert!(!str_eq("abc", "ab"));
    assert!(str_eq("", ""));
}
