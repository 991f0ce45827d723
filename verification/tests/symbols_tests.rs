use duck::symbols::SymbolIndex;

#[test]
fn insert_then_get() {
    let mut idx = SymbolIndex::new();
    assert_eq!(idx.len(), 0);
    idx.insert("a".to_string(), "record".to_string());
    idx.insert("b".to_string(), "enum".to_string());
    assert_eq!(idx.get("a").map(|s| s.as_str()), Some("record"));
    assert_eq!(idx.get("b").map(|s| s.as_str()), Some("enum"));
    assert_eq!(idx.get("c"), None);
    assert_eq!(idx.len(), 2);
}

#[test]
fn insert_replaces_kind_of_existing_name() {
    let mut idx = SymbolIndex::new();
    idx.insert("a".to_string(), "record".to_string());
    idx.insert("b".to_string(), "enum".to_string());
    idx.insert("a".to_string(), "namespace".to_string());
    assert_eq!(idx.len(), 2);
    assert_eq!(idx.get("a").map(|s| s.as_str()), Some("namespace"));
    let (n, k) = idx.entry(0);
    assert_eq!((n.as_str(), k.as_str()), ("a", "namespace"));
    let (n, k) = idx.entry(1);
    assert_eq!((n.as_str(), k.as_str()), ("b", "enum"));
}
