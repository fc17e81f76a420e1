use rsxtree::format::{Mode, SizeFormat, SortKey};

#[test]
fn mode_selectors_parse() {
    assert!(matches!(Mode::from_str("a"), Ok(Mode::Async)));
    assert!(matches!(Mode::from_str("async"), Ok(Mode::Async)));
    assert!(matches!(Mode::from_str("s"), Ok(Mode::Sync)));
    assert!(matches!(Mode::from_str("sync"), Ok(Mode::Sync)));
    assert!(matches!(Mode::from_str("p"), Ok(Mode::Parallel)));
    assert!(matches!(Mode::from_str("parallel"), Ok(Mode::Parallel)));
    assert_eq!(
        Mode::from_str("x").unwrap_err(),
        "Invalid size format:x"
    );
}

#[test]
fn size_format_selectors_parse() {
    assert!(matches!(SizeFormat::from_str("b"), Ok(SizeFormat::Bytes)));
    assert!(matches!(SizeFormat::from_str("bytes"), Ok(SizeFormat::Bytes)));
    assert!(matches!(
        SizeFormat::from_str("h"),
        Ok(SizeFormat::HumanReadable)
    ));
    assert!(matches!(
        SizeFormat::from_str("humanreadable"),
        Ok(SizeFormat::HumanReadable)
    ));
    assert!(SizeFormat::from_str("B").is_err());
}

#[test]
fn sort_key_selectors_parse() {
    assert!(matches!(SortKey::from_str("n"), Ok(SortKey::Name)));
    assert!(matches!(SortKey::from_str("name"), Ok(SortKey::Name)));
    assert!(matches!(SortKey::from_str("s"), Ok(SortKey::Size)));
    assert!(matches!(SortKey::from_str("size"), Ok(SortKey::Size)));
    assert!(matches!(SortKey::from_str("t"), Ok(SortKey::Time)));
    assert!(matches!(SortKey::from_str("tiem"), Ok(SortKey::Time)));
    assert!(matches!(SortKey::from_str("e"), Ok(SortKey::Ext)));
    assert!(matches!(SortKey::from_str("ext"), Ok(SortKey::Ext)));
    assert_eq!(
        SortKey::from_str("time").unwrap_err(),
        "Invalid size format:time"
    );
}
