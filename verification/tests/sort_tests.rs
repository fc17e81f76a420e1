use rsxtree::datetime::DateTimeWrap;
use rsxtree::files::MetaDataInfo;
use rsxtree::format::SortKey;
use rsxtree::render::tree_to_json;
use rsxtree::size::Unit;
use rsxtree::tree::TreeNode;

fn file_sized(name: &str, size: Option<u64>) -> TreeNode {
    TreeNode::new(name.into(), None, None, size.map(Unit::Byte), None)
}

fn with_time(name: &str, modified: i64) -> TreeNode {
    let meta = MetaDataInfo {
        size: 0,
        created: DateTimeWrap(modified),
        modified: DateTimeWrap(modified),
        owner_info: None,
    };
    TreeNode::new(name.into(), None, None, None, Some(meta))
}

fn child_names(node: &TreeNode) -> Vec<String> {
    node.get_children()
        .as_ref()
        .unwrap()
        .iter()
        .map(|c| c.get_name().clone())
        .collect()
}

#[test]
fn sort_by_size_orders_ascending_with_absent_sizes_last() {
    let mut root = TreeNode::new(
        "r".into(),
        None,
        Some(vec![
            file_sized("big", Some(300)),
            file_sized("unknown", None),
            file_sized("small", Some(5)),
            file_sized("mid", Some(40)),
        ]),
        None,
        None,
    );
    root.sort_by_size();
    assert_eq!(child_names(&root), vec!["small", "mid", "big", "unknown"]);
}

#[test]
fn sort_by_size_twice_is_idempotent() {
    let build = || {
        TreeNode::new(
            "r".into(),
            None,
            Some(vec![
                file_sized("b", Some(2)),
                TreeNode::new(
                    "d".into(),
                    None,
                    Some(vec![file_sized("y", None), file_sized("x", Some(1))]),
                    None,
                    None,
                ),
                file_sized("a", Some(1)),
            ]),
            None,
            None,
        )
    };
    let mut once = build();
    once.sort_by_size();
    let mut twice = build();
    twice.sort_by_size();
    twice.sort_by_size();
    assert_eq!(tree_to_json(&once), tree_to_json(&twice));
}

#[test]
fn sort_by_size_recurses_into_every_level() {
    let mut root = TreeNode::new(
        "r".into(),
        None,
        Some(vec![TreeNode::new(
            "d".into(),
            None,
            Some(vec![file_sized("y", Some(9)), file_sized("x", Some(1))]),
            None,
            None,
        )]),
        None,
        None,
    );
    root.sort_by_size();
    let inner = &root.get_children().as_ref().unwrap()[0];
    assert_eq!(child_names(inner), vec!["x", "y"]);
}

#[test]
fn sort_by_size_keeps_equal_sizes_in_listing_order() {
    let mut root = TreeNode::new(
        "r".into(),
        None,
        Some(vec![
            file_sized("second", Some(7)),
            file_sized("first", Some(7)),
            file_sized("tiny", Some(1)),
        ]),
        None,
        None,
    );
    root.sort_by_size();
    assert_eq!(child_names(&root), vec!["tiny", "second", "first"]);
}

#[test]
fn sort_by_name_is_lexicographic() {
    let mut root = TreeNode::new(
        "r".into(),
        None,
        Some(vec![
            file_sized("cherry", None),
            file_sized("apple", None),
            file_sized("banana", None),
        ]),
        None,
        None,
    );
    root.sort(&SortKey::Name);
    assert_eq!(child_names(&root), vec!["apple", "banana", "cherry"]);
}

#[test]
fn sort_by_time_orders_ascending_with_absent_metadata_last() {
    let mut root = TreeNode::new(
        "r".into(),
        None,
        Some(vec![
            with_time("late", 3000),
            file_sized("nometa", None),
            with_time("early", 1000),
        ]),
        None,
        None,
    );
    root.sort(&SortKey::Time);
    assert_eq!(child_names(&root), vec!["early", "late", "nometa"]);
}

#[test]
fn sorting_never_changes_node_contents() {
    let mut root = TreeNode::new(
        "r".into(),
        Some("WT_NEW".into()),
        Some(vec![file_sized("b", Some(2)), file_sized("a", Some(1))]),
        Some(Unit::Byte(3)),
        None,
    );
    root.sort_by_size();
    assert_eq!(root.get_name(), "r");
    assert_eq!(root.git_status.as_deref(), Some("WT_NEW"));
    assert_eq!(root.get_size().as_ref().unwrap().to_bytes(), 3);
    let children = root.get_children().as_ref().unwrap();
    assert_eq!(children[0].get_size().as_ref().unwrap().to_bytes(), 1);
    assert_eq!(children[1].get_size().as_ref().unwrap().to_bytes(), 2);
}
