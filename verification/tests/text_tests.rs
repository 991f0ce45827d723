use duck::highlight::lines_with_endings_exec;
use duck::markdown::title_of_exec;
use duck::text::{
    chars_of, contains_exec, join_exec, replace_exec, split_exec, starts_with_exec, str_eq,
    trim_exec, trim_start_matches_exec,
};

#[test]
fn replace_is_left_to_right_without_overlap() {
    assert_eq!(replace_exec("aaa", "aa", "b"), "ba");
    assert_eq!(replace_exec("x::y::z", "::", "/"), "x/y/z");
    assert_eq!(replace_exec("no match", "::", "/"), "no match");
    assert_eq!(replace_exec("héé", "é", "e"), "hee");
}

#[test]
fn split_and_join() {
    assert_eq!(split_exec("a::b::c", "::"), vec!["a", "b", "c"]);
    assert_eq!(split_exec("::a", "::"), vec!["", "a"]);
    assert_eq!(split_exec("a:::b", "::"), vec!["a", ":b"]);
    assert_eq!(split_exec("", "::"), vec![""]);
    let parts = split_exec("a::b::c", "::");
    assert_eq!(join_exec(&parts, 2, "/"), "a/b");
    assert_eq!(join_exec(&parts, 0, "/"), "");
}

#[test]
fn trimming() {
    assert_eq!(trim_start_matches_exec("::::a::b", "::"), "a::b");
    assert_eq!(trim_start_matches_exec(":a", "::"), ":a");
    assert_eq!(trim_exec(" \t x y \r\n"), "x y");
    assert_eq!(trim_exec("\u{3000}z\u{85}"), "z");
    assert_eq!(trim_exec("   "), "");
}

#[test]
fn predicates() {
    assert!(starts_with_exec("title: x", "title:"));
    assert!(!starts_with_exec("titl", "title:"));
    assert!(contains_exec("a::b", "::"));
    assert!(!contains_exec("a:b", "::"));
    assert!(str_eq("abc", "abc"));
    assert!(!str_eq("abc", "abd"));
    assert_eq!(chars_of("hé"), vec!['h', 'é']);
}

#[test]
fn metadata_title() {
    assert_eq!(title_of_exec("author: me\ntitle:  Hello World \nx: y\n"), "Hello World");
    assert_eq!(title_of_exec("title: First\ntitle: Second\n"), "First");
    assert_eq!(title_of_exec("title:title: Twice\r\n"), "Twice");
    assert_eq!(title_of_exec("name: none\n"), "");
    assert_eq!(title_of_exec(" title: indented\n"), "");
}

#[test]
fn lines_keep_their_endings() {
    assert_eq!(lines_with_endings_exec("a\nb\n"), vec!["a\n", "b\n"]);
    assert_eq!(lines_with_endings_exec("a\n\nb"), vec!["a\n", "\n", "b"]);
    assert_eq!(lines_with_endings_exec(""), Vec::<String>::new());
}
