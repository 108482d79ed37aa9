use cps_deps::table::insert;

#[test]
fn insert_appends_a_new_key() {
    let mut entries: Vec<(String, String)> = Vec::new();
    insert(&mut entries, "a".to_string(), "1".to_string());
    insert(&mut entries, "b".to_string(), "2".to_string());
    assert_eq!(
        entries,
        vec![("a".to_string(), "1".to_string()), ("b".to_string(), "2".to_string())]
    );
}

#[test]
fn insert_replaces_in_place() {
    let mut entries: Vec<(String, String)> = vec![
        ("a".to_string(), "1".to_string()),
        ("b".to_string(), "2".to_string()),
        ("c".to_string(), "3".to_string()),
    ];
    insert(&mut entries, "b".to_string(), "x".to_string());
    assert_eq!(
        entries,
        vec![
            ("a".to_string(), "1".to_string()),
            ("b".to_string(), "x".to_string()),
            ("c".to_string(), "3".to_string()),
        ]
    );
    insert(&mut entries, "".to_string(), "e".to_string());
    assert_eq!(entries.len(), 4);
    assert_eq!(entries[3], ("".to_string(), "e".to_string()));
}

#[test]
fn insert_keeps_keys_distinct() {
    let mut entries: Vec<(String, String)> = Vec::new();
    for key in ["x", "y", "x", "z", "y", "x"] {
        insert(&mut entries, key.to_string(), key.to_uppercase());
    }
    let keys: Vec<&str> = entries.iter().map(|(k, _)| k.as_str()).collect();
    assert_eq!(keys, vec!["x", "y", "z"]);
}
