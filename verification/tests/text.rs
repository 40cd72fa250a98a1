use waiting_for_a_signal::sorting::sort;
use waiting_for_a_signal::table::{TextMap, UserMap};
use waiting_for_a_signal::domain::UserKey;
use waiting_for_a_signal::text::{
    has_prefix, has_text, join_all, matches_ignoring_case, number_text, parse_unsigned, position_of,
    precedes, same, signed_number_text, split_at_each, split_words, trimmed, two_digit_text,
    with_first_replaced, with_text_replaced,
};

fn list(v: &[&str]) -> Vec<String> {
    v.iter().map(|s| s.to_string()).collect()
}

#[test]
fn trimming_and_splitting() {
    assert_eq!(trimmed("\u{2003} a b\t\n"), "a b");
    assert_eq!(trimmed("  "), "");
    assert_eq!(split_at_each("a,,b,", ','), list(&["a", "", "b", ""]));
    assert_eq!(split_at_each("", ','), list(&[""]));
    assert_eq!(split_words("  a  bc\td "), list(&["a", "bc", "d"]));
    assert!(split_words(" ").is_empty());
}

#[test]
fn joining_undoes_splitting() {
    let parts = list(&["07:30-09:00", "", "x"]);
    assert_eq!(split_at_each(&join_all(&parts, ","), ','), parts);
    assert_eq!(join_all(&vec![], ","), "");
}

#[test]
fn replacing() {
    assert_eq!(with_text_replaced("aaa", "aa", "b"), "ba");
    assert_eq!(with_first_replaced("xaxa", "a", ""), "xxa");
    assert_eq!(with_first_replaced("abc", "", "-"), "-abc");
    assert_eq!(with_first_replaced("abc", "d", "-"), "abc");
}

#[test]
fn searching() {
    assert!(has_prefix("waterloo east", "waterloo "));
    assert!(!has_prefix("a", "ab"));
    assert!(has_text("kings cross", "gs c"));
    assert!(has_text("x", ""));
    assert!(!has_text("", "x"));
    assert_eq!(position_of(&list(&["a", "b", "b"]), "b"), 1);
    assert_eq!(position_of(&list(&["a"]), "b"), 1);
}

#[test]
fn numbers() {
    assert_eq!(number_text(0), "0");
    assert_eq!(number_text(u64::MAX), "18446744073709551615");
    assert_eq!(two_digit_text(7), "07");
    assert_eq!(two_digit_text(100), "100");
    assert_eq!(signed_number_text(i64::MIN), "-9223372036854775808");
    assert_eq!(parse_unsigned("+18446744073709551615"), Some(u64::MAX));
    assert_eq!(parse_unsigned("18446744073709551616"), None);
    assert_eq!(parse_unsigned("007"), Some(7));
    assert_eq!(parse_unsigned(""), None);
    assert_eq!(parse_unsigned("+"), None);
    assert_eq!(parse_unsigned("-1"), None);
}

#[test]
fn comparing() {
    assert!(same("a", "a"));
    assert!(!same("a", "A"));
    assert!(matches_ignoring_case("tO", "To"));
    assert!(!matches_ignoring_case("\u{e9}", "\u{c9}"));
    assert!(precedes("09:00", "10:00"));
    assert!(precedes("", "a"));
    assert!(!precedes("b", "ab"));
    for (a, b) in [("09:59", "10:00"), ("a", "ab"), ("\u{e9}", "z"), ("x", "x")] {
        assert_eq!(precedes(a, b), a <= b);
        assert_eq!(precedes(b, a), b <= a);
    }
}

#[test]
fn sorting_texts() {
    let mut expected = list(&["10:00", "09:30", "09:05", "09:30"]);
    let sorted = sort(expected.clone());
    expected.sort();
    assert_eq!(sorted, expected);
    assert_eq!(sort(vec![3usize, 1, 2, 1]), vec![1, 1, 2, 3]);
    assert_eq!(sort(sort(vec![5usize, 4])), vec![4, 5]);
}

#[test]
fn maps_keep_the_last_value() {
    let mut m: TextMap<String> = TextMap::new();
    m.insert("a".to_string(), "1".to_string());
    m.insert("b".to_string(), "2".to_string());
    m.insert("a".to_string(), "3".to_string());
    assert_eq!(m.len(), 2);
    assert_eq!(m.get("a").unwrap(), "3");
    assert_eq!(m.get("b").unwrap(), "2");
    assert!(m.get("c").is_none());
    assert!(m.contains_key("b"));
    assert_eq!(m.entries[0].0, "a");
}

#[test]
fn users_can_be_taken_out_of_a_map() {
    let mut m: UserMap<String> = UserMap::new();
    m.insert(UserKey::telegram(1), "x".to_string());
    m.insert(UserKey::telegram(2), "y".to_string());
    m.remove(&UserKey::telegram(1));
    m.remove(&UserKey::telegram(3));
    assert!(m.get(&UserKey::telegram(1)).is_none());
    assert_eq!(m.get(&UserKey::telegram(2)).unwrap(), "y");
    assert_eq!(m.len(), 1);
    assert!(!m.is_empty());
    assert!(m.contains_key(&UserKey::telegram(2)));
}
