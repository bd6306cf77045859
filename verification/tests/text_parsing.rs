use document_library::numeric::{is_decimal, parse_i32, parse_u32, u64_to_dec};
use document_library::strutil::{
    count_occurrences, split_chars, starts_with, str_eq, to_lower, trim_chars,
};

fn cv(s: &str) -> Vec<char> {
    s.chars().collect()
}

fn sv(v: &Vec<char>) -> String {
    v.iter().collect()
}

#[test]
fn signed_integers_parse_exactly() {
    assert_eq!(parse_i32(&cv("42")), Some(42));
    assert_eq!(parse_i32(&cv("-42")), Some(-42));
    assert_eq!(parse_i32(&cv("0")), Some(0));
    assert_eq!(parse_i32(&cv("")), None);
    assert_eq!(parse_i32(&cv("-")), None);
    assert_eq!(parse_i32(&cv("4-2")), None);
    assert_eq!(parse_i32(&cv("12a")), None);
    assert_eq!(parse_i32(&cv("2147483647")), Some(i32::MAX));
    assert_eq!(parse_i32(&cv("2147483648")), None);
    assert_eq!(parse_i32(&cv("-2147483648")), Some(i32::MIN));
    assert_eq!(parse_i32(&cv("-2147483649")), None);
    assert_eq!(parse_i32(&cv("99999999999999999999")), None);
}

#[test]
fn unsigned_integers_parse_exactly() {
    assert_eq!(parse_u32(&cv("007")), Some(7));
    assert_eq!(parse_u32(&cv("4294967295")), Some(u32::MAX));
    assert_eq!(parse_u32(&cv("4294967296")), None);
    assert_eq!(parse_u32(&cv("-1")), None);
}

#[test]
fn decimal_literals_are_recognised() {
    assert!(is_decimal(&cv("12.5")));
    assert!(is_decimal(&cv("-0.5")));
    assert!(is_decimal(&cv(".5")));
    assert!(is_decimal(&cv("5.")));
    assert!(is_decimal(&cv("5")));
    assert!(!is_decimal(&cv(".")));
    assert!(!is_decimal(&cv("-")));
    assert!(!is_decimal(&cv("1.2.3")));
    assert!(!is_decimal(&cv("1-2")));
    assert!(!is_decimal(&cv("")));
}

#[test]
fn numbers_render_in_decimal() {
    assert_eq!(sv(&u64_to_dec(0)), "0");
    assert_eq!(sv(&u64_to_dec(7)), "7");
    assert_eq!(sv(&u64_to_dec(120304)), "120304");
    assert_eq!(sv(&u64_to_dec(u64::MAX)), "18446744073709551615");
}

#[test]
fn trimming_and_case_folding_work() {
    assert_eq!(sv(&trim_chars(&cv("  x y\t\n"))), "x y");
    assert_eq!(sv(&trim_chars(&cv(""))), "");
    assert_eq!(sv(&to_lower(&cv("Not FOUND"))), "not found");
}

#[test]
fn splitting_counts_and_prefixes() {
    let parts = split_chars(&cv("a/b//c"), '/');
    let texts: Vec<String> = parts.iter().map(sv).collect();
    assert_eq!(texts, vec!["a", "b", "", "c"]);
    assert_eq!(count_occurrences(&cv("2024-05-01"), '-'), 2);
    assert!(starts_with(&cv("inbox/file"), &cv("inbox/")));
    assert!(!starts_with(&cv("in"), &cv("inbox/")));
    assert!(str_eq("same", "same"));
    assert!(!str_eq("same", "Same"));
}
