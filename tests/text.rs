use aimd::pattern::{geometry_pattern, match_prefix};
use aimd::text::{chars_of, contains, lines_of, parse_unsigned, split_on, string_of, words_of};

fn cs(s: &str) -> Vec<char> {
    s.chars().collect()
}

fn strs(v: Vec<Vec<char>>) -> Vec<String> {
    v.into_iter().map(|w| w.into_iter().collect()).collect()
}

#[test]
fn chars_and_strings() {
    assert_eq!(chars_of("aé b"), vec!['a', 'é', ' ', 'b']);
    assert_eq!(string_of(&['x', 'y', 'z']), "xyz");
    assert_eq!(string_of(&[]), "");
}

#[test]
fn split_and_lines() {
    assert_eq!(strs(split_on(&cs("a,,b"), ',')), vec!["a", "", "b"]);
    assert_eq!(strs(split_on(&cs(""), ',')), vec![""]);
    assert_eq!(strs(lines_of(&cs("a\r\nb\n\nc\r"))), vec!["a", "b", "", "c\r"]);
    assert_eq!(strs(lines_of(&cs("x\n"))), vec!["x"]);
    assert!(lines_of(&cs("")).is_empty());
}

#[test]
fn words() {
    assert_eq!(strs(words_of(&cs("  NAtoms=\t 3\u{a0}x "))), vec!["NAtoms=", "3", "x"]);
    assert!(words_of(&cs("   ")).is_empty());
}

#[test]
fn unsigned_numbers() {
    assert_eq!(parse_unsigned(&cs("42"), 100), Some(42));
    assert_eq!(parse_unsigned(&cs("+7"), 100), Some(7));
    assert_eq!(parse_unsigned(&cs("101"), 100), None);
    assert_eq!(parse_unsigned(&cs("4294967295"), u32::MAX as u64), Some(4294967295));
    assert_eq!(parse_unsigned(&cs("4294967296"), u32::MAX as u64), None);
    assert_eq!(parse_unsigned(&cs("18446744073709551615"), u64::MAX), Some(u64::MAX));
    assert_eq!(parse_unsigned(&cs("18446744073709551616"), u64::MAX), None);
    assert_eq!(parse_unsigned(&cs("-1"), 100), None);
    assert_eq!(parse_unsigned(&cs("+"), 100), None);
    assert_eq!(parse_unsigned(&cs(""), 100), None);
    assert_eq!(parse_unsigned(&cs("1a"), 100), None);
}

#[test]
fn substring_search() {
    assert!(contains(&cs(" NAtoms=   3"), &cs("NAtoms=")));
    assert!(!contains(&cs(" NAtom=   3"), &cs("NAtoms=")));
    assert!(contains(&cs("abc"), &cs("")));
    assert!(!contains(&cs("ab"), &cs("abc")));
}

#[test]
fn geometry_grammar() {
    let p = geometry_pattern();
    assert!(match_prefix(&p, &cs("      1          8           0        0.000000    0.000000    0.117300")));
    assert!(match_prefix(&p, &cs(" 1 8 0 -1.5 2x5 3.25 trailing")));
    assert!(!match_prefix(&p, &cs("1 8 0 0.0 0.0 0.0")));
    assert!(!match_prefix(&p, &cs(" 1 8 0 0.0 0.0")));
    assert!(!match_prefix(&p, &cs(" 1 8 0 0. 0.0 0.0")));
}
