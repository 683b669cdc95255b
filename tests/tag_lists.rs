use tag_editor::tags::{add_tag, remove_tag, toggle_tag};

fn list(items: &[&str]) -> Vec<String> {
    items.iter().map(|s| s.to_string()).collect()
}

#[test]
fn add_appends_trimmed_tag() {
    let mut tags = list(&["a"]);
    add_tag(&mut tags, "  b \t");
    assert_eq!(tags, list(&["a", "b"]));
}

#[test]
fn add_ignores_blank_input() {
    let mut tags = list(&["a"]);
    add_tag(&mut tags, "   ");
    add_tag(&mut tags, "");
    assert_eq!(tags, list(&["a"]));
}

#[test]
fn add_existing_tag_is_noop() {
    let mut tags = list(&["cat", "dog"]);
    add_tag(&mut tags, "dog");
    add_tag(&mut tags, " cat ");
    assert_eq!(tags, list(&["cat", "dog"]));
}

#[test]
fn add_is_case_sensitive() {
    let mut tags = list(&["cat"]);
    add_tag(&mut tags, "Cat");
    assert_eq!(tags, list(&["cat", "Cat"]));
}

#[test]
fn remove_deletes_every_match() {
    let mut tags = list(&["a", "b", "a", "c"]);
    remove_tag(&mut tags, "a");
    assert_eq!(tags, list(&["b", "c"]));
}

#[test]
fn remove_absent_tag_changes_nothing() {
    let mut tags = list(&["a", "b"]);
    remove_tag(&mut tags, "z");
    assert_eq!(tags, list(&["a", "b"]));
}

#[test]
fn toggle_adds_then_removes() {
    let mut tags = list(&["a"]);
    assert!(toggle_tag(&mut tags, " b "));
    assert_eq!(tags, list(&["a", "b"]));
    assert!(!toggle_tag(&mut tags, "b"));
    assert_eq!(tags, list(&["a"]));
}

#[test]
fn toggle_twice_restores_list() {
    let before = list(&["x", "y"]);
    let mut tags = before.clone();
    toggle_tag(&mut tags, "z");
    toggle_tag(&mut tags, "z");
    assert_eq!(tags, before);
}

#[test]
fn toggle_twice_keeps_same_tags_when_present() {
    let mut tags = list(&["x", "y"]);
    toggle_tag(&mut tags, "x");
    toggle_tag(&mut tags, "x");
    let mut sorted = tags.clone();
    sorted.sort();
    assert_eq!(sorted, list(&["x", "y"]));
    assert_eq!(tags, list(&["y", "x"]));
}
