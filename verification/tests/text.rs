use eh2telegraph::text::{
    contains, contains_char, find, join, number, replace, signed_number, split, split_once,
    starts_with, strip_prefix, trim, trim_end_matches, trim_matches,
};
use eh2telegraph::unique::{holds, push_all_unique, some_unless_empty};

#[test]
fn trimming() {
    assert_eq!(trim(" \u{3000}a b\t\n"), "a b");
    assert_eq!(trim("\u{a0}"), "");
    assert_eq!(trim_matches("//a/b/", '/'), "a/b");
    assert_eq!(trim_end_matches("/a//", '/'), "/a");
    assert_eq!(trim(trim(" x ")), "x");
}

#[test]
fn searching() {
    assert_eq!(find("日本日本", "本"), Some(1));
    assert_eq!(find("abc", ""), Some(0));
    assert_eq!(find("ab", "abc"), None);
    assert!(contains("abc", "bc") && !contains("abc", "cb"));
    assert!(contains_char("abc", 'c') && !contains_char("", 'c'));
    assert!(starts_with("abc", "ab") && !starts_with("abc", "b"));
    assert_eq!(strip_prefix("abc", "ab"), Some("c"));
    assert_eq!(strip_prefix("abc", "b"), None);
}

#[test]
fn cutting_and_joining() {
    assert_eq!(split("/a//b", '/'), ["", "a", "", "b"]);
    assert_eq!(split("", '/'), [""]);
    assert_eq!(split_once("a=b=c", '='), Some(("a", "b=c")));
    assert_eq!(split_once("abc", '='), None);
    assert_eq!(join(&split("a,b,c", ','), ", "), "a, b, c");
    assert_eq!(join(&vec![], ", "), "");
}

#[test]
fn replacing() {
    assert_eq!(replace("aaa", "aa", "b"), "ba");
    assert_eq!(replace("a|b|", "|", ""), "ab");
    assert_eq!(replace("abc", "x", "y"), "abc");
}

#[test]
fn numbers() {
    assert_eq!(number(0), "0");
    assert_eq!(number(u64::MAX), u64::MAX.to_string());
    assert_eq!(signed_number(i64::MIN), i64::MIN.to_string());
    assert_eq!(signed_number(-1), "-1");
    assert_eq!(signed_number(100), "100");
}

#[test]
fn lists_without_duplicates() {
    let mut list = vec!["a".to_string()];
    push_all_unique(&mut list, &split("b,a,c,b", ','));
    assert_eq!(list, ["a", "b", "c"]);
    assert!(holds(&list, "c") && !holds(&list, "d"));
    assert_eq!(some_unless_empty(vec![]), None);
    assert_eq!(some_unless_empty(list).unwrap().len(), 3);
}
