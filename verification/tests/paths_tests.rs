use duck::paths::{get_namespace_path, get_path_for_name};
use duck::symbols::SymbolIndex;

fn sample_index() -> SymbolIndex {
    let mut idx = SymbolIndex::new();
    idx.insert("ns".to_string(), "namespace".to_string());
    idx.insert("ns::Rec".to_string(), "record".to_string());
    idx.insert("ns::operator/".to_string(), "function".to_string());
    idx.insert("foo".to_string(), "function".to_string());
    idx.insert("a::b::c".to_string(), "struct".to_string());
    idx.insert("::glob".to_string(), "function".to_string());
    idx.insert("::x::y".to_string(), "enum".to_string());
    idx.insert("op/".to_string(), "function".to_string());
    idx
}

#[test]
fn record_in_namespace_lives_in_namespace_dir() {
    let idx = sample_index();
    assert_eq!(get_path_for_name("ns::Rec", &idx, None), Some("ns/record.Rec".to_string()));
}

#[test]
fn top_level_symbol_has_kind_prefix() {
    let idx = sample_index();
    assert_eq!(get_path_for_name("foo", &idx, None), Some("function.foo".to_string()));
}

#[test]
fn namespace_path_is_its_directory() {
    let idx = sample_index();
    assert_eq!(get_path_for_name("ns", &idx, None), Some("ns".to_string()));
    assert_eq!(get_path_for_name("a::b::c", &idx, Some("namespace")), Some("a/b/c".to_string()));
}

#[test]
fn slash_in_basename_is_spelled_out() {
    let idx = sample_index();
    assert_eq!(
        get_path_for_name("ns::operator/", &idx, None),
        Some("ns/function.operatorslash".to_string())
    );
    assert_eq!(get_path_for_name("op/", &idx, None), Some("function.opslash".to_string()));
}

#[test]
fn deep_names_become_nested_directories() {
    let idx = sample_index();
    assert_eq!(get_path_for_name("a::b::c", &idx, None), Some("a/b/struct.c".to_string()));
}

#[test]
fn expected_kind_overrides_recorded_kind() {
    let idx = sample_index();
    assert_eq!(get_path_for_name("foo", &idx, Some("record")), Some("record.foo".to_string()));
}

#[test]
fn leading_separator_is_ignored() {
    let idx = sample_index();
    assert_eq!(get_path_for_name("::glob", &idx, None), Some("function.glob".to_string()));
    assert_eq!(get_path_for_name("::x::y", &idx, None), Some("x/enum.y".to_string()));
}

#[test]
fn unknown_names_have_no_path() {
    let idx = sample_index();
    assert_eq!(get_path_for_name("nope", &idx, None), None);
    assert_eq!(get_path_for_name("nope", &idx, Some("namespace")), None);
}

#[test]
fn namespace_path_replaces_every_separator() {
    assert_eq!(get_namespace_path("a::b::c"), "a/b/c");
    assert_eq!(get_namespace_path(""), "");
    assert_eq!(get_namespace_path("plain"), "plain");
    assert_eq!(get_namespace_path(":::"), "/:");
    assert_eq!(get_namespace_path("::::"), "//");
}

#[test]
fn namespace_path_never_holds_separator() {
    for name in ["a:::b", ":::", "::::::x", "a:b::c:", ":a::::b"] {
        assert!(!get_namespace_path(name).contains("::"), "{}", name);
    }
}

#[test]
fn namespace_kind_path_agrees_with_namespace_path() {
    let idx = sample_index();
    for name in ["ns", "a::b::c", "::x::y", "foo"] {
        assert_eq!(
            get_path_for_name(name, &idx, Some("namespace")),
            Some(get_namespace_path(name))
        );
    }
}
