use rsxtree::builder::{build_tree, build_tree_parallel, StatusMap};
use rsxtree::files::FsEntry;
use rsxtree::format::{Mode, OutputFormat, SizeFormat, SortKey};
use rsxtree::render::tree_to_json;
use rsxtree::tree::{Tree, TreeNode};

fn fs_file(path: &str, name: &str, size: u64) -> FsEntry {
    FsEntry {
        path: path.into(),
        name: name.into(),
        is_dir: false,
        readable: true,
        size: Some(size),
        children: vec![],
        meta: None,
    }
}

fn fs_dir(path: &str, name: &str, children: Vec<FsEntry>) -> FsEntry {
    FsEntry {
        path: path.into(),
        name: name.into(),
        is_dir: true,
        readable: true,
        size: None,
        children,
        meta: None,
    }
}

fn config(
    extensions: Vec<&str>,
    ignores: Vec<&str>,
    size: Option<SizeFormat>,
    max_depth: Option<u32>,
) -> Tree {
    Tree::new(
        ".".into(),
        extensions.into_iter().map(String::from).collect(),
        ignores.into_iter().map(String::from).collect(),
        size,
        max_depth,
        OutputFormat::Standard,
        false,
        false,
        None,
        Mode::Sync,
    )
}

fn names_of(node: &TreeNode) -> Vec<String> {
    match node.get_children() {
        Some(children) => children.iter().map(|c| c.get_name().clone()).collect(),
        None => vec![],
    }
}

#[test]
fn builds_children_in_listing_order() {
    let root = fs_dir(
        "/r",
        "r",
        vec![fs_file("/r/b.rs", "b.rs", 1), fs_file("/r/a.rs", "a.rs", 2)],
    );
    let tree = config(vec![], vec![], None, None);
    let node = build_tree(&root, 1, &tree, &StatusMap::new()).unwrap();
    assert_eq!(node.get_name(), "r");
    assert_eq!(names_of(&node), vec!["b.rs", "a.rs"]);
}

#[test]
fn directory_with_all_children_filtered_is_a_leaf() {
    let root = fs_dir(
        "/r",
        "r",
        vec![fs_file("/r/a.txt", "a.txt", 1), fs_file("/r/LICENSE", "LICENSE", 2)],
    );
    let tree = config(vec!["rs"], vec![], None, None);
    let node = build_tree(&root, 1, &tree, &StatusMap::new()).unwrap();
    assert!(node.get_children().is_none());
}

#[test]
fn extension_allow_list_keeps_only_listed_files() {
    let root = fs_dir(
        "/r",
        "r",
        vec![
            fs_file("/r/a.rs", "a.rs", 1),
            fs_file("/r/b.toml", "b.toml", 2),
            fs_dir("/r/sub", "sub", vec![fs_file("/r/sub/c.rs", "c.rs", 3)]),
            fs_file("/r/LOCK", "LOCK", 4),
        ],
    );
    let tree = config(vec!["rs"], vec![], None, None);
    let node = build_tree(&root, 1, &tree, &StatusMap::new()).unwrap();
    assert_eq!(names_of(&node), vec!["a.rs", "sub"]);
}

#[test]
fn ignore_list_drops_children_but_never_the_root() {
    let root = fs_dir(
        "/r",
        "target",
        vec![
            fs_file("/r/a.rs", "a.rs", 1),
            fs_dir("/r/target", "target", vec![fs_file("/r/target/x", "x", 1)]),
        ],
    );
    let tree = config(vec![], vec!["target"], None, None);
    let node = build_tree(&root, 1, &tree, &StatusMap::new()).unwrap();
    assert_eq!(node.get_name(), "target");
    assert_eq!(names_of(&node), vec!["a.rs"]);
}

#[test]
fn max_depth_one_keeps_only_the_root() {
    let root = fs_dir(
        "/r",
        "r",
        vec![fs_dir(
            "/r/sub",
            "sub",
            vec![fs_file("/r/sub/deep.rs", "deep.rs", 1)],
        )],
    );
    let tree = config(vec![], vec![], None, Some(1));
    let node = build_tree(&root, 1, &tree, &StatusMap::new()).unwrap();
    assert!(node.get_children().is_none());
}

#[test]
fn max_depth_two_drops_grandchildren_entirely() {
    let root = fs_dir(
        "/r",
        "r",
        vec![fs_dir(
            "/r/sub",
            "sub",
            vec![fs_file("/r/sub/deep.rs", "deep.rs", 1)],
        )],
    );
    let tree = config(vec![], vec![], None, Some(2));
    let node = build_tree(&root, 1, &tree, &StatusMap::new()).unwrap();
    assert_eq!(names_of(&node), vec!["sub"]);
    assert!(node.get_children().as_ref().unwrap()[0].get_children().is_none());
}

#[test]
fn unreadable_root_yields_nothing() {
    let mut root = fs_dir("/r", "r", vec![]);
    root.readable = false;
    let tree = config(vec![], vec![], None, None);
    assert!(build_tree(&root, 1, &tree, &StatusMap::new()).is_none());
}

#[test]
fn directory_size_counts_filtered_out_descendants_too() {
    let root = fs_dir(
        "/r",
        "r",
        vec![
            fs_file("/r/a.rs", "a.rs", 100),
            fs_file("/r/b.toml", "b.toml", 23),
            fs_dir("/r/sub", "sub", vec![fs_file("/r/sub/c.bin", "c.bin", 7)]),
        ],
    );
    // Only .rs files are visible, but the root size reports true disk usage.
    let tree = config(vec!["rs"], vec![], Some(SizeFormat::Bytes), None);
    let node = build_tree(&root, 1, &tree, &StatusMap::new()).unwrap();
    assert_eq!(node.get_size().as_ref().unwrap().to_bytes(), 130);
    assert_eq!(names_of(&node), vec!["a.rs", "sub"]);
}

#[test]
fn file_size_read_failure_leaves_the_size_absent() {
    let mut broken = fs_file("/r/a.rs", "a.rs", 0);
    broken.size = None;
    let root = fs_dir("/r", "r", vec![broken]);
    let tree = config(vec![], vec![], Some(SizeFormat::Bytes), None);
    let node = build_tree(&root, 1, &tree, &StatusMap::new()).unwrap();
    // The directory sum fails softly, and so does the broken file itself.
    assert!(node.get_size().is_none());
    let children = node.get_children().as_ref().unwrap();
    assert!(children[0].get_size().is_none());
}

#[test]
fn human_readable_sizes_are_classified() {
    let root = fs_dir(
        "/r",
        "r",
        vec![fs_file("/r/a.bin", "a.bin", 20000)],
    );
    let tree = config(vec![], vec![], Some(SizeFormat::HumanReadable), None);
    let node = build_tree(&root, 1, &tree, &StatusMap::new()).unwrap();
    let children = node.get_children().as_ref().unwrap();
    assert!(matches!(
        children[0].get_size().as_ref().unwrap(),
        rsxtree::size::Unit::KByte(20000)
    ));
}

#[test]
fn git_status_is_matched_by_exact_path_only() {
    let mut statuses = StatusMap::new();
    statuses.insert("/r/a.rs".into(), "WT_MODIFIED".into());
    let root = fs_dir(
        "/r",
        "r",
        vec![fs_file("/r/a.rs", "a.rs", 1), fs_file("/r/b.rs", "b.rs", 1)],
    );
    let tree = config(vec![], vec![], None, None);
    let node = build_tree(&root, 1, &tree, &statuses).unwrap();
    let children = node.get_children().as_ref().unwrap();
    assert_eq!(children[0].git_status.as_deref(), Some("WT_MODIFIED"));
    assert!(children[1].git_status.is_none());
}

#[test]
fn parallel_and_sequential_builders_agree() {
    let root = fs_dir(
        "/r",
        "r",
        vec![
            fs_file("/r/a.rs", "a.rs", 10),
            fs_dir(
                "/r/sub",
                "sub",
                vec![fs_file("/r/sub/b.toml", "b.toml", 20), fs_file("/r/sub/LOCK", "LOCK", 5)],
            ),
            fs_file("/r/c.txt", "c.txt", 30),
        ],
    );
    let mut statuses = StatusMap::new();
    statuses.insert("/r/a.rs".into(), "WT_NEW".into());
    let tree = config(vec![], vec!["LOCK"], Some(SizeFormat::Bytes), None);
    let sequential = build_tree(&root, 1, &tree, &statuses).unwrap();
    let parallel = build_tree_parallel(&root, 1, &tree, &statuses).unwrap();
    assert_eq!(tree_to_json(&sequential), tree_to_json(&parallel));
}

#[test]
fn config_normalization_enables_implied_flags() {
    let by_size = Tree::new(
        ".".into(),
        vec![],
        vec![],
        None,
        None,
        OutputFormat::Standard,
        false,
        false,
        Some(SortKey::Size),
        Mode::Sync,
    );
    assert_eq!(by_size.size, Some(SizeFormat::Bytes));
    assert!(!by_size.verbose);

    let by_time = Tree::new(
        ".".into(),
        vec![],
        vec![],
        None,
        None,
        OutputFormat::Standard,
        false,
        false,
        Some(SortKey::Time),
        Mode::Sync,
    );
    assert!(by_time.verbose);
    assert_eq!(by_time.size, None);

    let explicit = Tree::new(
        ".".into(),
        vec![],
        vec![],
        Some(SizeFormat::HumanReadable),
        None,
        OutputFormat::Standard,
        false,
        false,
        Some(SortKey::Size),
        Mode::Sync,
    );
    assert_eq!(explicit.size, Some(SizeFormat::HumanReadable));
}
