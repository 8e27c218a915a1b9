use clarify::walk::list_files;
use clarify::walk::FsTree;

fn file(name: &str) -> FsTree {
    FsTree::File { name: name.to_string() }
}

fn dir(name: &str, entries: Vec<FsTree>) -> FsTree {
    FsTree::Dir { name: name.to_string(), entries }
}

#[test]
fn lists_single_source_file() {
    let entries = vec![file("a.rs")];
    let root = ".".to_string();
    let r = list_files(&root, &entries, ".rs", "target");
    assert_eq!(r, vec!["./a.rs".to_string()]);
}

#[test]
fn keeps_extension_and_order() {
    let entries = vec![file("b.rs"), file("notes.txt"), file("a.rs")];
    let root = "root".to_string();
    let r = list_files(&root, &entries, ".rs", "target");
    assert_eq!(r, vec!["root/b.rs".to_string(), "root/a.rs".to_string()]);
}

#[test]
fn prunes_excluded_directory_at_any_depth() {
    let entries = vec![
        file("a.rs"),
        dir("target", vec![file("built.rs")]),
        dir(
            "src",
            vec![
                file("c.rs"),
                dir("target", vec![dir("deep", vec![file("d.rs")])]),
                dir("nested", vec![file("e.rs")]),
            ],
        ),
    ];
    let root = ".".to_string();
    let r = list_files(&root, &entries, ".rs", "target");
    assert_eq!(
        r,
        vec![
            "./a.rs".to_string(),
            "./src/c.rs".to_string(),
            "./src/nested/e.rs".to_string(),
        ]
    );
    for p in &r {
        assert!(!p.contains("/target/"));
    }
}

#[test]
fn exclusion_matches_whole_component_only() {
    let entries = vec![
        dir("target2", vec![file("kept.rs")]),
        dir("my_target", vec![file("also_kept.rs")]),
    ];
    let root = ".".to_string();
    let r = list_files(&root, &entries, ".rs", "target");
    assert_eq!(
        r,
        vec!["./target2/kept.rs".to_string(), "./my_target/also_kept.rs".to_string()]
    );
}

#[test]
fn file_named_like_exclusion_is_not_pruned() {
    let entries = vec![file("target.rs")];
    let root = ".".to_string();
    let r = list_files(&root, &entries, ".rs", "target");
    assert_eq!(r, vec!["./target.rs".to_string()]);
}

#[test]
fn empty_tree_lists_nothing() {
    let entries: Vec<FsTree> = vec![];
    let root = ".".to_string();
    let r = list_files(&root, &entries, ".rs", "target");
    assert!(r.is_empty());
}
