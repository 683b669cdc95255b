use tag_editor::file_tree::{FileNode, FileTree};

fn names(nodes: &[FileNode]) -> Vec<String> {
    nodes.iter().map(|n| n.name.clone()).collect()
}

fn listing() -> Vec<FileNode> {
    vec![
        FileNode::new("/r/zeta.png".to_string(), false),
        FileNode::new("/r/Beta".to_string(), true),
        FileNode::new("/r/notes.txt".to_string(), false),
        FileNode::new("/r/alpha.JPG".to_string(), false),
        FileNode::new("/r/apple".to_string(), true),
    ]
}

#[test]
fn node_name_is_last_component() {
    let n = FileNode::new("/home/u/pic.png".to_string(), false);
    assert_eq!(n.name, "pic.png");
    assert!(!n.is_dir);
    assert!(n.children.is_empty());
    assert_eq!(FileNode::new("plain".to_string(), true).name, "plain");
}

#[test]
fn children_dirs_first_then_images_by_folded_name() {
    let mut root = FileNode::new("/r".to_string(), true);
    root.set_children(listing());
    assert_eq!(names(&root.children), vec!["apple", "Beta", "alpha.JPG", "zeta.png"]);
}

#[test]
fn file_node_keeps_no_children() {
    let mut f = FileNode::new("/r/a.png".to_string(), false);
    f.set_children(listing());
    assert!(f.children.is_empty());
}

#[test]
fn set_root_expands_it() {
    let mut t = FileTree::default();
    t.set_root("/r".to_string(), listing());
    assert!(t.is_expanded("/r"));
    assert_eq!(t.root.as_ref().map(|r| r.children.len()), Some(4));
}

#[test]
fn toggle_expanded_flips() {
    let mut t = FileTree::default();
    assert!(t.toggle_expanded("/r/apple"));
    assert!(t.is_expanded("/r/apple"));
    assert!(!t.toggle_expanded("/r/apple"));
    assert!(!t.is_expanded("/r/apple"));
}

#[test]
fn load_children_for_nested_path() {
    let mut t = FileTree::default();
    t.set_root("/r".to_string(), listing());
    let sub = vec![
        FileNode::new("/r/apple/b.png".to_string(), false),
        FileNode::new("/r/apple/A.gif".to_string(), false),
    ];
    t.load_children_for_path("/r/apple", sub);
    let root = t.root.as_ref().unwrap();
    let apple = root.children.iter().find(|c| c.name == "apple").unwrap();
    assert_eq!(names(&apple.children), vec!["A.gif", "b.png"]);
    let beta = root.children.iter().find(|c| c.name == "Beta").unwrap();
    assert!(beta.children.is_empty());
}

#[test]
fn node_name_skips_trailing_separators() {
    assert_eq!(FileNode::new("/home/u/pics/".to_string(), true).name, "pics");
    assert_eq!(FileNode::new("/home/u/pics/.".to_string(), true).name, "pics");
    assert_eq!(FileNode::new("/home/..".to_string(), true).name, "");
}
