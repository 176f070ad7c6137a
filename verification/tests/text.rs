use opsbot::text::{
    contains_str, ends_with_str, find_str, split_lines, split_ws, starts_with_str, str_eq,
    trim_str, u32_to_dec, u64_to_dec,
};

#[test]
fn substring_search_finds_the_first_occurrence() {
    assert_eq!(find_str("abcabc", "bc"), Some(1));
    assert_eq!(find_str("abc", "zz"), None);
    assert_eq!(find_str("abc", ""), Some(0));
    assert!(contains_str("命令超时了", "超时"));
    assert!(!contains_str("abc", "abd"));
}

#[test]
fn affix_checks_work_on_multibyte_text() {
    assert!(starts_with_str("ppt-generator \"T\"", "ppt-generator "));
    assert!(ends_with_str("/tmp/out.PNG", ".PNG"));
    assert!(!ends_with_str("x.png", ".jpg"));
    assert!(starts_with_str("安装说明", "安装"));
}

#[test]
fn trimming_strips_unicode_whitespace() {
    assert_eq!(trim_str("  hello \t\n"), "hello");
    assert_eq!(trim_str("\u{3000}全角\u{3000}"), "全角");
    assert_eq!(trim_str(""), "");
}

#[test]
fn decimal_formatting_is_exact() {
    assert_eq!(u32_to_dec(0), "0");
    assert_eq!(u32_to_dec(1234), "1234");
    assert_eq!(u32_to_dec(u32::MAX), "4294967295");
    assert_eq!(u64_to_dec(1000000), "1000000");
}

#[test]
fn line_splitting_matches_str_lines() {
    let text = "a\nb\r\nc\n";
    let lines = split_lines(text);
    assert_eq!(lines, vec!["a", "b", "c"]);
    assert_eq!(split_lines(""), Vec::<String>::new());
    assert_eq!(split_lines("\n"), vec![""]);
    assert_eq!(split_lines("a\r"), vec!["a\r"]);
}

#[test]
fn whitespace_splitting_matches_split_whitespace() {
    assert_eq!(split_ws(" a  b\tc\n"), vec!["a", "b", "c"]);
    assert_eq!(split_ws("   "), Vec::<String>::new());
}

#[test]
fn string_equality_compares_characters() {
    assert!(str_eq("abc", "abc"));
    assert!(!str_eq("abc", "abd"));
    assert!(!str_eq("abc", "ab"));
}
