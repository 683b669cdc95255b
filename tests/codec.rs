use tag_editor::codec::{
    decode_comment, decode_text, encode_comment, encode_text, load_tags, save_tags, TagError,
};
use tag_editor::format::{is_image_file, is_supported_format};

fn list(items: &[&str]) -> Vec<String> {
    items.iter().map(|s| s.to_string()).collect()
}

#[test]
fn decode_strips_ascii_marker() {
    assert_eq!(decode_comment(b"ASCII\0\0\0tag1;tag2"), list(&["tag1", "tag2"]));
}

#[test]
fn decode_plain_utf8() {
    assert_eq!(decode_comment(b"tag1;tag2"), list(&["tag1", "tag2"]));
}

#[test]
fn decode_strips_unicode_marker() {
    assert_eq!(decode_text("UNICODE\0cat;dog"), list(&["cat", "dog"]));
}

#[test]
fn decode_trims_and_drops_empty_pieces() {
    assert_eq!(decode_text("  a ; ;b;; c  "), list(&["a", "b", "c"]));
}

#[test]
fn decode_keeps_duplicates() {
    assert_eq!(decode_text("a;b;a"), list(&["a", "b", "a"]));
}

#[test]
fn decode_removes_embedded_nuls() {
    assert_eq!(decode_text("a\0b;c\0"), list(&["ab", "c"]));
}

#[test]
fn decode_short_marked_text_is_empty() {
    assert_eq!(decode_text("ASCII"), Vec::<String>::new());
}

#[test]
fn decode_replaces_invalid_utf8() {
    assert_eq!(decode_comment(&[b'a', 0xff, b';', b'b']), list(&["a\u{fffd}", "b"]));
}

#[test]
fn decode_empty_is_empty() {
    assert_eq!(decode_comment(b""), Vec::<String>::new());
    assert_eq!(decode_comment(b"  ;  "), Vec::<String>::new());
}

#[test]
fn encode_joins_with_semicolons() {
    assert_eq!(encode_text(&list(&["a", "bc", "d"])), "a;bc;d");
    assert_eq!(encode_comment(&list(&["猫", "x"])), "猫;x".as_bytes().to_vec());
    assert_eq!(encode_text(&Vec::new()), "");
}

#[test]
fn round_trip_recovers_tags() {
    let tags = list(&["sunset", "beach trip", "2024", "ねこ"]);
    let bytes = encode_comment(&tags);
    assert_eq!(decode_comment(&bytes), tags);
}

#[test]
fn load_unsupported_format_is_empty() {
    assert_eq!(load_tags("/pics/a.bmp", Some(b"x;y".to_vec())), Vec::<String>::new());
}

#[test]
fn load_without_comment_is_empty() {
    assert_eq!(load_tags("/pics/a.png", None), Vec::<String>::new());
}

#[test]
fn load_supported_decodes() {
    assert_eq!(load_tags("/pics/A.JPG", Some(b"ASCII\0\0\0p;q".to_vec())), list(&["p", "q"]));
}

#[test]
fn save_unsupported_format_fails() {
    let r = save_tags("/pics/anim.gif", &list(&["a"]));
    assert!(matches!(r, Err(TagError::UnsupportedFormat)));
}

#[test]
fn save_supported_gives_bytes() {
    match save_tags("/pics/a.webp", &list(&["a", "b"])) {
        Ok(b) => assert_eq!(b, b"a;b".to_vec()),
        Err(_) => panic!("expected bytes"),
    }
}

#[test]
fn classification_by_extension() {
    assert!(is_supported_format("/a/b.png"));
    assert!(is_supported_format("/a/b.JPeG"));
    assert!(is_supported_format("c.webp"));
    assert!(!is_supported_format("/a/b.gif"));
    assert!(!is_supported_format("/a/b.bmp"));
    assert!(!is_supported_format("/a/png"));
    assert!(!is_supported_format("/a/.png"));
    assert!(is_image_file("/a/b.GIF"));
    assert!(is_image_file("/a/b.bmp"));
    assert!(is_image_file("/a/b.jpg"));
    assert!(!is_image_file("/a/b.txt"));
    assert!(!is_image_file("/a.png/b"));
}

#[test]
fn classification_follows_path_components() {
    assert!(is_supported_format("a.png/"));
    assert!(is_supported_format("/d/a.png/."));
    assert!(is_image_file("a.bmp/"));
    assert!(!is_supported_format(r"C:\x\.png"));
    assert!(is_supported_format(r"C:\x\b.PNG"));
    assert!(!is_image_file("/d/.."));
    assert!(!is_image_file("."));
}
