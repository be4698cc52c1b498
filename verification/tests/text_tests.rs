use netblame::text::{
    chars_of, decimal_string, lines_of, parse_number, split_chars, tokens_of, trim_exec,
};

fn strings(v: Vec<Vec<char>>) -> Vec<String> {
    v.into_iter().map(|c| c.into_iter().collect()).collect()
}

#[test]
fn splits_like_str_split() {
    let v = chars_of("a/b//c");
    assert_eq!(strings(split_chars(&v, '/')), vec!["a", "b", "", "c"]);
    assert_eq!(strings(split_chars(&chars_of(""), '/')), vec![""]);
    assert_eq!(strings(split_chars(&chars_of("/"), '/')), vec!["", ""]);
}

#[test]
fn tokens_like_split_whitespace() {
    let v = chars_of("  one\ttwo \n three  ");
    assert_eq!(strings(tokens_of(&v)), vec!["one", "two", "three"]);
    assert!(tokens_of(&chars_of("   ")).is_empty());
}

#[test]
fn lines_like_str_lines() {
    let v = chars_of("a\r\nb\n\nc");
    assert_eq!(strings(lines_of(&v)), vec!["a", "b", "", "c"]);
    assert_eq!(strings(lines_of(&chars_of("x\n"))), vec!["x"]);
    assert_eq!(strings(lines_of(&chars_of("x\r"))), vec!["x\r"]);
    assert!(lines_of(&chars_of("")).is_empty());
}

#[test]
fn trims_white_space() {
    let t: String = trim_exec(&chars_of(" \t value \u{3000}")).into_iter().collect();
    assert_eq!(t, "value");
}

#[test]
fn numbers_like_str_parse() {
    assert_eq!(parse_number(&chars_of("255"), 255), Some(255));
    assert_eq!(parse_number(&chars_of("256"), 255), None);
    assert_eq!(parse_number(&chars_of("+7"), 255), Some(7));
    assert_eq!(parse_number(&chars_of("+"), 255), None);
    assert_eq!(parse_number(&chars_of("-1"), 255), None);
    assert_eq!(parse_number(&chars_of("007"), 255), Some(7));
    assert_eq!(parse_number(&chars_of(""), 255), None);
    assert_eq!(parse_number(&chars_of("99999999999999999999999"), u64::MAX), None);
    assert_eq!(decimal_string(0), "0");
    assert_eq!(decimal_string(1234567), "1234567");
}
