use rsxtree::size::Unit;
use rsxtree::stats::Stats;
use rsxtree::tree::TreeNode;

fn file(name: &str, size: u64) -> TreeNode {
    TreeNode::new(name.into(), None, None, Some(Unit::Byte(size)), None)
}

fn dir(name: &str, children: Vec<TreeNode>) -> TreeNode {
    TreeNode::new(name.into(), None, Some(children), None, None)
}

#[test]
fn test_single_rs_file_stats() {
    let mut stats = Stats::empty();

    let tree_node = file("main.rs", 1000);

    stats.collect_stats(&tree_node);

    assert_eq!(stats.get("rs").unwrap().count, 1);
    assert_eq!(stats.get("rs").unwrap().size, 1000);
}

#[test]
fn test_file_without_extension() {
    let mut stats = Stats::empty();

    let tree_node = file("LOCK", 2048);
    stats.collect_stats(&tree_node);

    assert_eq!(stats.get("(no ext)").unwrap().count, 1);
    assert_eq!(stats.get("(no ext)").unwrap().size, 2048);
}

#[test]
fn test_directory_node_is_ignored() {
    let mut stats = Stats::empty();

    let tree_node = dir("test", vec![]);
    stats.collect_stats(&tree_node);

    assert!(stats.is_empty());
}

#[test]
fn test_mutiple_node_stats() {
    let f1 = file("test.rs", 1048);
    let f2 = file("util.rs", 2048);
    let nested_f1 = file("mod.rs", 500);
    let nested_f2 = file("config.toml", 500);
    let nested = dir("nested", vec![nested_f1, nested_f2]);
    let root = dir("src", vec![f1, f2, nested]);

    let mut stats = Stats::empty();
    stats.collect_stats(&root);

    assert_eq!(stats.get("rs").unwrap().count, 3);
    assert_eq!(stats.get("rs").unwrap().size, 3596);

    assert_eq!(stats.get("toml").unwrap().count, 1);
    assert_eq!(stats.get("toml").unwrap().size, 500);

    assert!(stats.get("(no ext)").is_none());
}

#[test]
fn no_extension_never_fills_an_empty_string_bucket() {
    let mut stats = Stats::empty();
    stats.collect_stats(&file("LOCK", 2048));

    assert!(stats.get("").is_none());
    assert_eq!(stats.get("(no ext)").unwrap().count, 1);
}

#[test]
fn stats_without_sizes_count_files_only() {
    let mut stats = Stats::empty();
    let node = TreeNode::new("a.rs".into(), None, None, None, None);
    stats.collect_stats(&node);

    assert_eq!(stats.get("rs").unwrap().count, 1);
    assert_eq!(stats.get("rs").unwrap().size, 0);
}

#[test]
fn stats_buckets_keep_first_appearance_order() {
    let root = dir(
        "root",
        vec![file("b.toml", 1), file("a.rs", 2), file("c.toml", 3)],
    );
    let mut stats = Stats::empty();
    stats.collect_stats(&root);

    assert_eq!(stats.len(), 2);
    let (first_key, first) = stats.bucket(0);
    let (second_key, second) = stats.bucket(1);
    assert_eq!(first_key, "toml");
    assert_eq!(first.count, 2);
    assert_eq!(first.size, 4);
    assert_eq!(second_key, "rs");
    assert_eq!(second.count, 1);
    assert_eq!(second.size, 2);
}
