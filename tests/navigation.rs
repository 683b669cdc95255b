use tag_editor::viewer::{path_to_uri, ImageViewer};

fn paths(items: &[&str]) -> Vec<String> {
    items.iter().map(|s| s.to_string()).collect()
}

fn viewer_on(items: &[&str], current: usize) -> ImageViewer {
    let mut v = ImageViewer::default();
    v.images_in_dir = paths(items);
    v.current_index = current;
    v.current_image = Some(items[current].to_string());
    v
}

#[test]
fn open_sorts_filters_and_positions() {
    let mut v = ImageViewer::default();
    let entries = paths(&["/d/c.png", "/d/notes.txt", "/d/a.gif", "/d/B.jpg", "/d/sub"]);
    v.open("/d/c.png", true, entries);
    assert_eq!(v.images_in_dir, paths(&["/d/B.jpg", "/d/a.gif", "/d/c.png"]));
    assert_eq!(v.current_index, 2);
    assert_eq!(v.current_image, Some("/d/c.png".to_string()));
    assert_eq!(v.get_texture_uri(), Some("file:////d/c.png"));
    assert_eq!(v.total_images(), 3);
}

#[test]
fn open_missing_or_non_image_does_nothing() {
    let mut v = ImageViewer::default();
    v.open("/d/c.png", false, paths(&["/d/c.png"]));
    assert_eq!(v.current_image, None);
    v.open("/d/readme.txt", true, paths(&["/d/readme.txt"]));
    assert_eq!(v.current_image, None);
    assert_eq!(v.total_images(), 0);
}

#[test]
fn open_path_not_listed_falls_back_to_first() {
    let mut v = ImageViewer::default();
    v.open("/d/z.png", true, paths(&["/d/b.png", "/d/a.png"]));
    assert_eq!(v.current_index, 0);
    assert_eq!(v.current_image, Some("/d/z.png".to_string()));
}

#[test]
fn next_wraps_around() {
    let mut v = viewer_on(&["/d/a.png", "/d/b.png", "/d/c.png"], 2);
    v.next();
    assert_eq!(v.current_index, 0);
    assert_eq!(v.current_image, Some("/d/a.png".to_string()));
    assert_eq!(v.get_texture_uri(), Some("file:////d/a.png"));
}

#[test]
fn prev_wraps_around() {
    let mut v = viewer_on(&["/d/a.png", "/d/b.png", "/d/c.png"], 0);
    v.prev();
    assert_eq!(v.current_index, 2);
    assert_eq!(v.current_image, Some("/d/c.png".to_string()));
}

#[test]
fn n_steps_return_to_start() {
    let items = ["/d/a.png", "/d/b.png", "/d/c.png", "/d/d.png"];
    for start in 0..items.len() {
        let mut v = viewer_on(&items, start);
        for _ in 0..items.len() {
            v.next();
        }
        assert_eq!(v.current_index, start);
        for _ in 0..items.len() {
            v.prev();
        }
        assert_eq!(v.current_index, start);
        assert_eq!(v.current_image, Some(items[start].to_string()));
    }
}

#[test]
fn navigation_on_empty_list_is_noop() {
    let mut v = ImageViewer::default();
    v.next();
    v.prev();
    assert_eq!(v.current_image, None);
    assert_eq!(v.current_index, 0);
}

#[test]
fn goto_in_and_out_of_range() {
    let mut v = viewer_on(&["/d/a.png", "/d/b.png"], 0);
    v.goto(1);
    assert_eq!(v.current_image, Some("/d/b.png".to_string()));
    v.goto(5);
    assert_eq!(v.current_index, 1);
}

#[test]
fn close_keeps_list() {
    let mut v = viewer_on(&["/d/a.png", "/d/b.png"], 1);
    v.close();
    assert_eq!(v.current_image, None);
    assert_eq!(v.get_texture_uri(), None);
    assert_eq!(v.current_index, 0);
    assert_eq!(v.total_images(), 2);
}

#[test]
fn remove_middle_advances_to_next() {
    let mut v = viewer_on(&["a.png", "b.png", "c.png"], 1);
    let r = v.remove_current_and_advance();
    assert_eq!(r, Some("c.png".to_string()));
    assert_eq!(v.images_in_dir, paths(&["a.png", "c.png"]));
    assert_eq!(v.current_index, 1);
    assert_eq!(v.current_image, Some("c.png".to_string()));
}

#[test]
fn remove_last_falls_back_to_previous() {
    let mut v = viewer_on(&["a.png", "b.png", "c.png"], 2);
    let r = v.remove_current_and_advance();
    assert_eq!(r, Some("b.png".to_string()));
    assert_eq!(v.images_in_dir, paths(&["a.png", "b.png"]));
    assert_eq!(v.current_index, 1);
}

#[test]
fn remove_only_image_leaves_nothing() {
    let mut v = viewer_on(&["a.png"], 0);
    assert_eq!(v.remove_current_and_advance(), None);
    assert!(v.images_in_dir.is_empty());
    assert_eq!(v.current_image, None);
}

#[test]
fn uri_drops_extended_prefix_and_backslashes() {
    assert_eq!(path_to_uri(r"\\?\C:\pics\a.png"), "file:///C:/pics/a.png");
    assert_eq!(path_to_uri("/home/u/a b.png"), "file:////home/u/a b.png");
}

#[test]
fn set_directory_lists_images_without_current() {
    let mut v = viewer_on(&["/old/x.png"], 0);
    v.set_directory(paths(&["/d/b.webp", "/d/a.bmp", "/d/notes.md"]));
    assert_eq!(v.images_in_dir, paths(&["/d/a.bmp", "/d/b.webp"]));
    assert_eq!(v.current_image, None);
    assert_eq!(v.current_index, 0);
    v.next();
    assert_eq!(v.current_image, Some("/d/b.webp".to_string()));
}
