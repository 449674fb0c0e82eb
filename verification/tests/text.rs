use isekai::text::{
    chars_of, decimal_string, eq_ignore_ascii_case, find_chars, parse_unsigned, replace_text, same_text,
    string_from_chars, trim_chars, trim_char_chars, trim_end_char_chars,
};

#[test]
fn trimming() {
    assert_eq!(string_from_chars(&trim_chars(&chars_of("\u{3000} a b \t\n"))), "a b");
    assert_eq!(string_from_chars(&trim_char_chars(&chars_of("\0\0C\0"), '\0')), "C");
    assert_eq!(string_from_chars(&trim_end_char_chars(&chars_of("E:\\\\"), '\\')), "E:");
}

#[test]
fn decimal_and_parse() {
    assert_eq!(decimal_string(0), "0");
    assert_eq!(decimal_string(18446744073709551615), "18446744073709551615");
    let cs = chars_of("+42");
    assert_eq!(parse_unsigned(&cs, 0, 3, 100), Some(42));
    assert_eq!(parse_unsigned(&cs, 0, 3, 41), None);
    assert_eq!(parse_unsigned(&chars_of("+"), 0, 1, 100), None);
    assert_eq!(parse_unsigned(&chars_of("4 2"), 0, 3, 100), None);
}

#[test]
fn comparisons_and_search() {
    assert!(same_text("abc", "abc"));
    assert!(!same_text("abc", "abd"));
    assert!(eq_ignore_ascii_case("NTFS", "ntfs"));
    assert!(!eq_ignore_ascii_case("É", "é"));
    assert_eq!(find_chars(&chars_of("a--b--"), &chars_of("--")), Some(1));
    assert_eq!(find_chars(&chars_of("ab"), &chars_of("c")), None);
}

#[test]
fn replacing() {
    assert_eq!(replace_text("{dev} {size} {dev}", "{dev}", "/dev/sda1"), "/dev/sda1 {size} /dev/sda1");
    assert_eq!(replace_text("aaa", "aa", "b"), "ba");
}
