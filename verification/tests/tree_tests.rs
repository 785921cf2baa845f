use hibiscus_core::error::HibiscusError;
use hibiscus_core::tree::build_tree;
use hibiscus_core::tree::read_dir_recursive;
use hibiscus_core::tree::RawEntry;
use hibiscus_core::tree::RootProbe;
use hibiscus_core::tree::MAX_TREE_DEPTH;
use hibiscus_core::workspace::NodeType;

fn file(name: &str) -> RawEntry {
    RawEntry { name: name.to_string(), is_dir: false, entries: Vec::new() }
}

fn dir(name: &str, entries: Vec<RawEntry>) -> RawEntry {
    RawEntry { name: name.to_string(), is_dir: true, entries }
}

#[test]
fn test_empty_directory() {
    let result = read_dir_recursive(&Vec::new(), "", MAX_TREE_DEPTH);
    assert!(result.is_empty());
}

#[test]
fn test_depth_limit() {
    // With depth 0, the result is empty whatever the directory holds.
    let listing = vec![file("visible.txt"), dir("sub", vec![file("inner.txt")])];
    let result = read_dir_recursive(&listing, "", 0);
    assert!(result.is_empty());
}

#[test]
fn test_hidden_files_skipped() {
    let listing = vec![file(".hidden"), file("visible.txt")];
    let result = read_dir_recursive(&listing, "", MAX_TREE_DEPTH);
    assert_eq!(result.len(), 1);
    assert_eq!(result[0].name, "visible.txt");
}

#[test]
fn test_folders_sorted_before_files() {
    let listing = vec![file("aaa.txt"), dir("zzz_folder", Vec::new())];
    let result = read_dir_recursive(&listing, "", MAX_TREE_DEPTH);
    assert_eq!(result.len(), 2);
    // The folder comes first even though 'z' > 'a'.
    assert_eq!(result[0].name, "zzz_folder");
    assert_eq!(result[1].name, "aaa.txt");
}

#[test]
fn case_insensitive_alphabetical_within_groups() {
    let listing = vec![file("ZZZ.txt"), file("aaa.txt"), file("Mmm.txt")];
    let result = read_dir_recursive(&listing, "", MAX_TREE_DEPTH);
    let names: Vec<&str> = result.iter().map(|n| n.name.as_str()).collect();
    // Code-point order would put the capitals first; lowercasing must win.
    assert_eq!(names, ["aaa.txt", "Mmm.txt", "ZZZ.txt"]);
}

#[test]
fn equal_keys_keep_entry_order() {
    let listing = vec![file("B.txt"), file("b.txt")];
    let result = read_dir_recursive(&listing, "", MAX_TREE_DEPTH);
    let names: Vec<&str> = result.iter().map(|n| n.name.as_str()).collect();
    assert_eq!(names, ["B.txt", "b.txt"]);
}

#[test]
fn relative_ids_and_children() {
    let listing = vec![dir("sub", vec![file("inner.txt"), dir("deep", Vec::new())])];
    let result = read_dir_recursive(&listing, "", MAX_TREE_DEPTH);
    assert_eq!(result.len(), 1);
    let sub = &result[0];
    assert_eq!(sub.id, "sub");
    assert!(matches!(sub.node_type, NodeType::Folder));
    assert!(sub.path.is_none());
    let children = sub.children.as_ref().unwrap();
    assert_eq!(children.len(), 2);
    assert_eq!(children[0].id, "sub/deep");
    assert_eq!(children[1].id, "sub/inner.txt");
    assert_eq!(children[1].path.as_deref(), Some("sub/inner.txt"));
    assert!(matches!(children[1].node_type, NodeType::File));
    assert!(children[1].children.is_none());
}

#[test]
fn unreadable_directory_becomes_empty_folder() {
    // a directory whose listing could not be read is handed in with no
    // entries and yields an empty children list, not an error
    let listing = vec![dir("locked", Vec::new())];
    let result = read_dir_recursive(&listing, "", MAX_TREE_DEPTH);
    assert_eq!(result.len(), 1);
    assert_eq!(result[0].children.as_ref().unwrap().len(), 0);
}

#[test]
fn build_tree_checks_root() {
    let ok = build_tree("ws", RootProbe::Directory, &vec![file("a.txt")]).unwrap();
    assert_eq!(ok.len(), 1);
    // a missing root and a wrong-type root are distinct errors
    match build_tree("ws", RootProbe::Missing, &Vec::new()) {
        Err(HibiscusError::FileNotFound(p)) => assert_eq!(p, "ws"),
        other => panic!("expected a file-not-found error, got {:?}", other),
    }
    match build_tree("ws", RootProbe::NotADirectory, &Vec::new()) {
        Err(HibiscusError::InvalidPathType { path, expected, actual }) => {
            assert_eq!(path, "ws");
            assert_eq!(expected, "directory");
            assert_eq!(actual, "file");
        },
        other => panic!("expected an invalid-path-type error, got {:?}", other),
    }
    assert!(matches!(
        build_tree("a/../b", RootProbe::Directory, &Vec::new()),
        Err(HibiscusError::PathValidation(_))
    ));
}

#[test]
fn depth_bound_truncates_deep_nesting() {
    // 25 nested directories; the walk stops after MAX_TREE_DEPTH levels
    let mut entry = dir("d", Vec::new());
    for _ in 0..24 {
        entry = dir("d", vec![entry]);
    }
    let result = read_dir_recursive(&vec![entry], "", MAX_TREE_DEPTH);
    let mut levels = 0;
    let mut cursor = &result;
    while cursor.len() == 1 {
        levels += 1;
        cursor = cursor[0].children.as_ref().unwrap();
    }
    assert_eq!(levels, MAX_TREE_DEPTH);
}

#[test]
fn sibling_ids_are_distinct() {
    let listing = vec![
        file("a.txt"),
        file("B.txt"),
        dir("a", Vec::new()),
        dir("c", vec![file("a.txt")]),
    ];
    let result = read_dir_recursive(&listing, "", MAX_TREE_DEPTH);
    let ids: Vec<&str> = result.iter().map(|n| n.id.as_str()).collect();
    let mut deduped = ids.clone();
    deduped.sort();
    deduped.dedup();
    assert_eq!(deduped.len(), ids.len());
    // the nested a.txt gets a distinct, prefixed id
    assert_eq!(result[1].children.as_ref().unwrap()[0].id, "c/a.txt");
}
