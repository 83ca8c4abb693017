use jellyswarrm::json::Json;
use jellyswarrm::sorting::sort_strings;
use jellyswarrm::text::{
    contains, decimal_i64, decimal_u64, eq_ignoring_case, join_strings, parse_i64, split, str_le,
    trim, trim_end_char,
};

#[test]
fn splitting_and_joining_undo_each_other() {
    for s in ["", "/", "a", "a/b", "/a//b/", "é/ü"] {
        let parts = split(s, '/');
        assert_eq!(parts, s.split('/').map(String::from).collect::<Vec<String>>());
        assert_eq!(join_strings(&parts, "/"), s);
    }
}

#[test]
fn trimming_takes_white_space_of_both_ends() {
    for s in ["", " ", " a b ", "\u{a0}x\u{2003}", "\t\n\u{85}y", "plain", "\u{200b}z"] {
        assert_eq!(trim(s), s.trim());
    }
    assert_eq!(trim_end_char("a//", '/'), "a");
    assert_eq!(trim_end_char("//", '/'), "");
}

#[test]
fn decimals_read_back() {
    for n in [0, 7, -7, 10, i64::MAX, i64::MIN] {
        assert_eq!(decimal_i64(n), n.to_string());
        assert_eq!(parse_i64(&decimal_i64(n)), Some(n));
    }
    assert_eq!(decimal_u64(u64::MAX), u64::MAX.to_string());
    for s in ["", "-", "+", "+5", "00012", "-0", "9223372036854775808", "-9223372036854775809", "1 ", "a"] {
        assert_eq!(parse_i64(s), s.parse::<i64>().ok());
    }
}

#[test]
fn case_is_ignored_for_ascii_only() {
    assert!(eq_ignoring_case("ParentId", "PARENTID"));
    assert!(!eq_ignoring_case("é", "É"));
    assert!(contains("abcabd", "abd"));
    assert!(contains("abc", ""));
    assert!(!contains("ab", "abc"));
}

#[test]
fn texts_are_sorted_by_their_characters() {
    let names: Vec<String> =
        ["b", "", "a", "é", "a", "Z"].iter().map(|s| s.to_string()).collect();
    let mut want = names.clone();
    want.sort();
    assert_eq!(sort_strings(&names), want);
    assert!(str_le("a", "ab"));
    assert!(!str_le("b", "ab"));
}

#[test]
fn first_entry_of_a_name_counts() {
    let v = Json::Object(vec![
        ("k".to_string(), Json::Text("one".to_string())),
        ("k".to_string(), Json::Number(Some(2))),
        ("t".to_string(), Json::Bool(true)),
    ]);
    assert_eq!(v.get_text("k").as_deref(), Some("one"));
    assert_eq!(v.get_int("k"), None);
    assert_eq!(v.get_truth("t"), Some(true));
    assert!(v.get("missing").is_none());
    assert!(Json::Null.get("k").is_none());
    assert_eq!(format!("{:?}", v.copy()), format!("{:?}", v));
}
