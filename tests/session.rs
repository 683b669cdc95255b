use tag_editor::codec::TagError;
use tag_editor::search::{collect_all_tags, find_images_with_tag};
use tag_editor::hotkeys::HotkeyTable;
use tag_editor::session::TagSession;

fn strs(items: &[&str]) -> Vec<String> {
    items.iter().map(|s| s.to_string()).collect()
}

fn opened() -> TagSession {
    let mut s = TagSession::new();
    s.open("/d/b.png", true, strs(&["/d/a.png", "/d/b.png", "/d/c.jpg"]), Some(b"x;y".to_vec()));
    s
}

#[test]
fn open_loads_tags_clean() {
    let s = opened();
    assert_eq!(s.tags, strs(&["x", "y"]));
    assert!(!s.modified);
    assert_eq!(s.viewer.current_index, 1);
}

#[test]
fn add_existing_leaves_session_clean() {
    let mut s = opened();
    s.add("x");
    assert!(!s.modified);
    s.remove("nope");
    assert!(!s.modified);
    s.add("z");
    assert!(s.modified);
    assert_eq!(s.tags, strs(&["x", "y", "z"]));
}

#[test]
fn toggle_marks_modified() {
    let mut s = opened();
    assert!(!s.toggle("y"));
    assert!(s.modified);
    assert_eq!(s.tags, strs(&["x"]));
}

#[test]
fn save_flow() {
    let mut s = opened();
    assert!(!s.needs_save(true));
    s.add("z");
    assert!(s.needs_save(true));
    assert!(!s.needs_save(false));
    match s.pending_save() {
        Some(Ok(b)) => assert_eq!(b, b"x;y;z".to_vec()),
        _ => panic!("expected bytes to write"),
    }
    s.finish_save(false);
    assert!(s.modified);
    s.finish_save(true);
    assert!(!s.modified);
}

#[test]
fn pending_save_on_gif_is_unsupported() {
    let mut s = TagSession::new();
    s.open("/d/a.gif", true, strs(&["/d/a.gif"]), None);
    assert!(matches!(s.pending_save(), Some(Err(TagError::UnsupportedFormat))));
}

#[test]
fn navigate_returns_next_path() {
    let mut s = opened();
    assert_eq!(s.navigate(true), Some("/d/c.jpg".to_string()));
    s.take_loaded("/d/c.jpg", Some(b"q".to_vec()));
    assert_eq!(s.tags, strs(&["q"]));
    assert_eq!(s.navigate(false), Some("/d/b.png".to_string()));
}

#[test]
fn remove_current_moves_on() {
    let mut s = opened();
    s.add("z");
    assert_eq!(s.remove_current(), Some("/d/c.jpg".to_string()));
    assert!(s.tags.is_empty());
    assert!(!s.modified);
    assert_eq!(s.viewer.images_in_dir, strs(&["/d/a.png", "/d/c.jpg"]));
}

#[test]
fn find_images_with_tag_filters_and_sorts() {
    let entries = strs(&["/d/c.png", "/d/a.jpg", "/d/b.gif", "/d/d.png"]);
    let lists = vec![strs(&["cat"]), strs(&["dog", "cat"]), strs(&["cat"]), strs(&["Cat"])];
    assert_eq!(find_images_with_tag(&entries, &lists, "cat"), strs(&["/d/a.jpg", "/d/c.png"]));
}

#[test]
fn collect_all_tags_unions_once() {
    let entries = strs(&["/d/c.png", "/d/a.jpg", "/d/b.gif"]);
    let lists = vec![strs(&["cat", "sun"]), strs(&["dog", "cat"]), strs(&["moon"])];
    let mut all = collect_all_tags(&entries, &lists);
    all.sort();
    assert_eq!(all, strs(&["cat", "dog", "sun"]));
}

#[test]
fn remove_last_image_in_session_moves_back() {
    let mut s = TagSession::new();
    s.open("/d/c.jpg", true, strs(&["/d/a.png", "/d/b.png", "/d/c.jpg"]), None);
    assert_eq!(s.remove_current(), Some("/d/b.png".to_string()));
    assert_eq!(s.viewer.current_index, 1);
    assert_eq!(s.viewer.current_image, Some("/d/b.png".to_string()));
}

#[test]
fn remove_only_image_in_session_leaves_none() {
    let mut s = TagSession::new();
    s.open("/d/a.png", true, strs(&["/d/a.png"]), Some(b"t".to_vec()));
    assert_eq!(s.remove_current(), None);
    assert_eq!(s.viewer.current_image, None);
    assert_eq!(s.viewer.current_index, 0);
    assert!(s.tags.is_empty());
}

#[test]
fn press_key_toggles_bound_tags() {
    let pairs = vec![("1".to_string(), "x".to_string()), ("1".to_string(), "new".to_string()), ("2".to_string(), "y".to_string())];
    let table = HotkeyTable::from_pairs(&pairs);
    let mut s = opened();
    assert!(s.press_key(&table, '1', true));
    assert_eq!(s.tags, strs(&["y", "new"]));
    assert!(s.modified);
    let mut t = opened();
    assert!(!t.press_key(&table, '1', false));
    assert!(t.modified);
    let mut u = opened();
    assert!(!u.press_key(&table, '9', true));
    assert!(!u.modified);
}
