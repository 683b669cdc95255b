use tag_editor::hotkeys::{key_from_name, HotkeyTable};

#[test]
fn key_names_fold_case() {
    assert_eq!(key_from_name("A"), Some('a'));
    assert_eq!(key_from_name("z"), Some('z'));
    assert_eq!(key_from_name("7"), Some('7'));
}

#[test]
fn unknown_key_names() {
    assert_eq!(key_from_name(""), None);
    assert_eq!(key_from_name("10"), None);
    assert_eq!(key_from_name("F1"), None);
    assert_eq!(key_from_name("-"), None);
}

#[test]
fn table_lists_tags_per_key() {
    let pairs = vec![
        ("1".to_string(), "cat".to_string()),
        ("Space".to_string(), "ignored".to_string()),
        ("Q".to_string(), "dog".to_string()),
        ("q".to_string(), "bird".to_string()),
    ];
    let table = HotkeyTable::from_pairs(&pairs);
    assert_eq!(table.keys, vec!['1', 'q', 'q']);
    assert_eq!(table.tags_for('q'), vec!["dog".to_string(), "bird".to_string()]);
    assert_eq!(table.tags_for('1'), vec!["cat".to_string()]);
    assert!(table.tags_for('x').is_empty());
}
