use rsxtree::builder::ext_of;
use rsxtree::files::{get_filename, get_filesize, get_human_readable_filesize, FsEntry};
use rsxtree::size::Unit;

fn fs_file(name: &str, size: u64) -> FsEntry {
    FsEntry {
        path: format!("/r/{}", name),
        name: name.into(),
        is_dir: false,
        readable: true,
        size: Some(size),
        children: vec![],
        meta: None,
    }
}

fn fs_dir(name: &str, children: Vec<FsEntry>) -> FsEntry {
    FsEntry {
        path: format!("/r/{}", name),
        name: name.into(),
        is_dir: true,
        readable: true,
        size: None,
        children,
        meta: None,
    }
}

#[test]
fn filename_is_the_final_path_segment() {
    assert_eq!(get_filename("src/main.rs", ""), "main.rs");
    assert_eq!(get_filename("/home/user/proj/", ""), "proj");
    assert_eq!(get_filename("plain", ""), "plain");
}

#[test]
fn filename_of_the_current_directory_token_uses_the_canonical_path() {
    assert_eq!(get_filename(".", "/home/user/proj"), "proj");
    assert_eq!(get_filename("..", "/home/user"), "user");
    assert_eq!(get_filename("", "/top"), "top");
}

#[test]
fn filename_falls_back_to_empty_when_nothing_resolves() {
    assert_eq!(get_filename(".", ""), "");
    assert_eq!(get_filename("/", "/"), "");
}

#[test]
fn extension_follows_the_last_dot_after_the_first_character() {
    assert_eq!(ext_of("main.rs").as_deref(), Some("rs"));
    assert_eq!(ext_of("archive.tar.gz").as_deref(), Some("gz"));
    assert_eq!(ext_of("LOCK"), None);
    assert_eq!(ext_of(".gitignore"), None);
    assert_eq!(ext_of(".config.toml").as_deref(), Some("toml"));
}

#[test]
fn directory_size_sums_every_descendant_file() {
    let tree = fs_dir(
        "r",
        vec![
            fs_file("a", 100),
            fs_dir("sub", vec![fs_file("b", 23), fs_file("c", 7)]),
        ],
    );
    assert_eq!(get_filesize(&tree), Some(130));
}

#[test]
fn directory_size_fails_softly_on_an_unreadable_subdirectory() {
    let mut sub = fs_dir("sub", vec![]);
    sub.readable = false;
    let tree = fs_dir("r", vec![fs_file("a", 100), sub]);
    assert_eq!(get_filesize(&tree), None);
}

#[test]
fn size_of_a_file_argument_is_not_a_directory_size() {
    assert_eq!(get_filesize(&fs_file("a", 5)), None);
}

#[test]
fn human_readable_size_classifies_the_total() {
    let tree = fs_dir("r", vec![fs_file("a", 9000), fs_file("b", 3000)]);
    assert!(matches!(
        get_human_readable_filesize(&tree),
        Some(Unit::KByte(12000))
    ));
    assert!(matches!(
        get_human_readable_filesize(&fs_file("a", 5)),
        Some(Unit::Byte(5))
    ));
}
