use trimcp::strmap::StrMap;

#[test]
fn insert_get_remove() {
    let mut m: StrMap<u32> = StrMap::new();
    assert!(m.is_empty());
    assert_eq!(m.insert("a".to_string(), 1), None);
    assert_eq!(m.insert("b".to_string(), 2), None);
    assert_eq!(m.insert("a".to_string(), 3), Some(1));
    assert_eq!(m.len(), 2);
    assert_eq!(m.get("a"), Some(&3));
    assert!(m.contains_key("b"));
    assert_eq!(m.remove("b"), Some(2));
    assert_eq!(m.remove("b"), None);
    assert_eq!(m.len(), 1);
    assert!(!m.contains_key("b"));
}

#[test]
fn sorted_keys_are_in_code_point_order() {
    let mut m: StrMap<u8> = StrMap::new();
    for k in ["github", "filesystem", "Zeta", "fs", "été"] {
        m.insert(k.to_string(), 0);
    }
    assert_eq!(m.sorted_keys(), vec!["Zeta", "filesystem", "fs", "github", "été"]);
}

#[test]
fn clone_keeps_entries() {
    let mut m: StrMap<String> = StrMap::new();
    m.insert("k".to_string(), "v".to_string());
    let c = m.clone();
    assert_eq!(c.get("k").map(|s| s.as_str()), Some("v"));
    assert_eq!(c.len(), 1);
}
