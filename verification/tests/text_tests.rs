use rpub::text::dec_u64;
use rpub::text::dedup_strings;
use rpub::text::find_from;
use rpub::text::join_strings;
use rpub::text::lower_ascii;
use rpub::text::replace_all;
use rpub::text::slug_of;
use rpub::text::split_by;
use rpub::text::str_eq;
use rpub::text::str_lt;

#[test]
fn dec_renders_decimal() {
    assert_eq!(dec_u64(0), "0");
    assert_eq!(dec_u64(7), "7");
    assert_eq!(dec_u64(50), "50");
    assert_eq!(dec_u64(1234567890), "1234567890");
    assert_eq!(dec_u64(u64::MAX), "18446744073709551615");
}

#[test]
fn find_from_first_occurrence() {
    assert_eq!(find_from("abcabc", 0, "bc"), Some(1));
    assert_eq!(find_from("abcabc", 2, "bc"), Some(4));
    assert_eq!(find_from("abcabc", 0, "zz"), None);
    assert_eq!(find_from("", 0, "a"), None);
}

#[test]
fn replace_all_replaces_every_occurrence() {
    assert_eq!(replace_all("a.png and a.png", "a.png", "img_0.jpg"), "img_0.jpg and img_0.jpg");
    assert_eq!(replace_all("aaa", "aa", "b"), "ba");
    assert_eq!(replace_all("hello", "x", "y"), "hello");
    assert_eq!(replace_all("", "x", "y"), "");
}

#[test]
fn dedup_keeps_first_occurrences() {
    let v = vec![
        "b".to_string(),
        "a".to_string(),
        "b".to_string(),
        "c".to_string(),
        "a".to_string(),
    ];
    let d = dedup_strings(&v);
    assert_eq!(d, vec!["b".to_string(), "a".to_string(), "c".to_string()]);
}

#[test]
fn slug_folds_case_and_replaces_punctuation() {
    assert_eq!(slug_of("Hacker News"), "hacker_news");
    assert_eq!(slug_of("A.B-C"), "a_b_c");
    assert_eq!(slug_of("already_ok123"), "already_ok123");
    assert_eq!(slug_of(""), "");
}

#[test]
fn lower_ascii_folds_only_ascii_uppercase() {
    assert_eq!(lower_ascii("Example.COM"), "example.com");
    assert_eq!(lower_ascii("abc123"), "abc123");
}

#[test]
fn join_inserts_separator_between_parts() {
    let parts = vec!["p".to_string(), ".content".to_string()];
    assert_eq!(join_strings(&parts, ", "), "p, .content");
    let one = vec!["p".to_string()];
    assert_eq!(join_strings(&one, ", "), "p");
    let none: Vec<String> = Vec::new();
    assert_eq!(join_strings(&none, ", "), "");
}

#[test]
fn split_by_separates_pieces() {
    assert_eq!(split_by("a\nb\nc", "\n"), vec!["a", "b", "c"]);
    assert_eq!(split_by("a, b", ", "), vec!["a", "b"]);
    assert_eq!(split_by("abc", "\n"), vec!["abc"]);
    assert_eq!(split_by("a\n", "\n"), vec!["a", ""]);
}

#[test]
fn str_order_and_equality() {
    assert!(str_lt("A", "B"));
    assert!(str_lt("A", "AB"));
    assert!(!str_lt("B", "A"));
    assert!(!str_lt("A", "A"));
    assert!(str_eq("abc", "abc"));
    assert!(!str_eq("abc", "abd"));
    assert!(!str_eq("abc", "ab"));
}
