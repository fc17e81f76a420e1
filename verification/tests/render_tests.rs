use rsxtree::datetime::DateTimeWrap;
use rsxtree::files::{MetaDataInfo, OwnerInfo};
use rsxtree::render::{i64_to_string, tree_to_json, tree_to_markdown, u64_to_string};
use rsxtree::size::Unit;
use rsxtree::tree::TreeNode;

fn file(name: &str, size: u64) -> TreeNode {
    TreeNode::new(name.into(), None, None, Some(Unit::Byte(size)), None)
}

#[test]
fn numbers_render_in_decimal() {
    assert_eq!(u64_to_string(0), "0");
    assert_eq!(u64_to_string(7), "7");
    assert_eq!(u64_to_string(1048), "1048");
    assert_eq!(u64_to_string(u64::MAX), "18446744073709551615");
    assert_eq!(i64_to_string(-42), "-42");
    assert_eq!(i64_to_string(i64::MIN), "-9223372036854775808");
    assert_eq!(i64_to_string(12), "12");
}

#[test]
fn markdown_lists_the_tree_with_indentation() {
    let root = TreeNode::new(
        "src".into(),
        None,
        Some(vec![
            file("main.rs", 10),
            TreeNode::new(
                "nested".into(),
                None,
                Some(vec![file("mod.rs", 5)]),
                None,
                None,
            ),
        ]),
        None,
        None,
    );
    let md = tree_to_markdown(&root, 0);
    assert_eq!(md, "- src\n  - main.rs\n  - nested\n    - mod.rs\n");
}

#[test]
fn json_round_trip_omits_absent_optional_fields() {
    let root = TreeNode::new(
        "src".into(),
        None,
        Some(vec![file("main.rs", 1048)]),
        None,
        None,
    );
    let text = tree_to_json(&root);
    let value: serde_json::Value = serde_json::from_str(&text).unwrap();

    let obj = value.as_object().unwrap();
    assert_eq!(obj.get("name").unwrap(), "src");
    assert!(obj.contains_key("children"));
    assert!(!obj.contains_key("git_status"));
    assert!(!obj.contains_key("size"));
    assert!(!obj.contains_key("verbose_info"));

    let child = &value["children"][0];
    let child_obj = child.as_object().unwrap();
    assert_eq!(child_obj.get("name").unwrap(), "main.rs");
    assert_eq!(child_obj.get("size").unwrap(), 1048);
    assert!(!child_obj.contains_key("children"));
    assert!(!child_obj.contains_key("git_status"));
    // No field is ever emitted as a null placeholder.
    assert!(value
        .as_object()
        .unwrap()
        .values()
        .all(|v| !v.is_null()));
    assert!(child_obj.values().all(|v| !v.is_null()));
}

#[test]
fn json_renders_every_present_field() {
    let meta = MetaDataInfo {
        size: 77,
        created: DateTimeWrap(1000),
        modified: DateTimeWrap(2000),
        owner_info: Some(OwnerInfo { owner: 501, group: 20 }),
    };
    let node = TreeNode::new(
        "a.rs".into(),
        Some("WT_NEW".into()),
        None,
        Some(Unit::Byte(77)),
        Some(meta),
    );
    let value: serde_json::Value = serde_json::from_str(&tree_to_json(&node)).unwrap();
    assert_eq!(value["name"], "a.rs");
    assert_eq!(value["git_status"], "WT_NEW");
    assert_eq!(value["size"], 77);
    assert_eq!(value["verbose_info"]["size"], 77);
    assert_eq!(value["verbose_info"]["created"], 1000);
    assert_eq!(value["verbose_info"]["modified"], 2000);
    assert_eq!(value["verbose_info"]["owner"], 501);
    assert_eq!(value["verbose_info"]["group"], 20);
}

#[test]
fn json_escapes_special_characters_in_names() {
    let node = TreeNode::new("we\"ird\\name".into(), None, None, None, None);
    let text = tree_to_json(&node);
    let value: serde_json::Value = serde_json::from_str(&text).unwrap();
    assert_eq!(value["name"], "we\"ird\\name");
}

#[test]
fn dates_render_from_timestamps() {
    assert_eq!(DateTimeWrap(0).yyyy_mm_dd_format().unwrap(), "1970-01-01");
    assert_eq!(
        DateTimeWrap::from(86400).yyyy_mm_dd_format().unwrap(),
        "1970-01-02"
    );
    assert_eq!(
        rsxtree::datetime::yyyy_mm_dd_format(1431648000).unwrap(),
        "2015-05-15"
    );
    // Timestamps beyond the representable calendar yield no date at all.
    assert!(rsxtree::datetime::yyyy_mm_dd_format(i64::MAX).is_none());
}
