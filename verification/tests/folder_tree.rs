use exruster::io::folder_tree::{order_subdirs, TreeWalk};
use std::path::PathBuf;

#[test]
fn subdirs_sorted_case_insensitively_without_hidden() {
    let entries = vec![
        (Some("bravo".to_string()), 1),
        (Some(".git".to_string()), 2),
        (Some("Charlie".to_string()), 3),
        (None, 4),
        (Some("alpha".to_string()), 5),
    ];
    assert_eq!(order_subdirs(entries), vec![5, 1, 3]);
}

#[test]
fn equal_lowercase_names_keep_listing_order() {
    let entries = vec![(Some("B".to_string()), 1), (Some("a".to_string()), 2), (Some("b".to_string()), 3)];
    assert_eq!(order_subdirs(entries), vec![2, 1, 3]);
}

#[test]
fn walk_visits_expanded_folders_depth_first() {
    let root = PathBuf::from("/r");
    let mut walk = TreeWalk::start(root.clone());
    assert_eq!(walk.next_dir(), Some(&root));
    walk.visit("r".to_string(), vec![PathBuf::from("/r/a"), PathBuf::from("/r/b")], true);
    assert_eq!(walk.next_dir(), Some(&PathBuf::from("/r/a")));
    walk.visit("a".to_string(), vec![PathBuf::from("/r/a/x")], true);
    assert_eq!(walk.next_dir(), Some(&PathBuf::from("/r/a/x")));
    walk.visit("x".to_string(), vec![PathBuf::from("/r/a/x/deep")], false);
    assert_eq!(walk.next_dir(), Some(&PathBuf::from("/r/b")));
    walk.visit("b".to_string(), Vec::new(), true);
    assert_eq!(walk.next_dir(), None);
    let nodes = walk.finish();
    let rows: Vec<(&str, i32, bool)> =
        nodes.iter().map(|n| (n.display_name.as_str(), n.depth, n.has_children)).collect();
    assert_eq!(rows, vec![("r", 0, true), ("a", 1, true), ("x", 2, true), ("b", 1, false)]);
}
