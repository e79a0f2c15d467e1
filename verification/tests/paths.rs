use webdav_wasi::error::BackendError;
use webdav_wasi::path::{host_prefixes, normalize_path, parent_dir};

#[test]
fn normalize_drops_empty_and_dot_segments() {
    assert_eq!(normalize_path("/a/./b//c/").unwrap(), "a/b/c");
    assert_eq!(normalize_path("docs/report.txt").unwrap(), "docs/report.txt");
}

#[test]
fn normalize_root_forms_are_empty() {
    assert_eq!(normalize_path("").unwrap(), "");
    assert_eq!(normalize_path("/").unwrap(), "");
    assert_eq!(normalize_path("/./").unwrap(), "");
}

#[test]
fn normalize_refuses_parent_segments() {
    assert_eq!(
        normalize_path("a/../b"),
        Err(BackendError::InvalidPath { path: "a/../b".to_string() })
    );
    assert_eq!(
        normalize_path("/.."),
        Err(BackendError::InvalidPath { path: "/..".to_string() })
    );
}

#[test]
fn normalize_keeps_names_that_only_look_like_dots() {
    assert_eq!(normalize_path("/...//.hidden/a..b").unwrap(), ".../.hidden/a..b");
}

#[test]
fn normalize_is_idempotent() {
    for p in ["/a/./b//c/", "x", "", "//y//z", "./.../w"] {
        let once = normalize_path(p).unwrap();
        let twice = normalize_path(&once).unwrap();
        assert_eq!(once, twice);
    }
}

#[test]
fn parent_dir_takes_everything_before_the_last_slash() {
    assert_eq!(parent_dir("a/b/c"), Some("a/b"));
    assert_eq!(parent_dir("a/b/"), Some("a/b"));
    assert_eq!(parent_dir("/top"), Some(""));
}

#[test]
fn parent_dir_of_a_single_name_is_the_root() {
    assert_eq!(parent_dir("file.txt"), Some(""));
}

#[test]
fn parent_dir_of_the_root_is_none() {
    assert_eq!(parent_dir(""), None);
}

#[test]
fn parent_and_name_rejoin_to_the_path() {
    let path = "docs/sub/file.txt";
    let parent = parent_dir(path).unwrap();
    let name = &path[parent.len() + 1..];
    assert_eq!(format!("{parent}/{name}"), path);
    assert!(!name.contains('/'));
}

#[test]
fn host_prefixes_follow_path_push() {
    assert_eq!(host_prefixes("/srv", "a/b"), vec!["/srv/a".to_string(), "/srv/a/b".to_string()]);
    assert_eq!(host_prefixes("/srv/", "a"), vec!["/srv/a".to_string()]);
    assert_eq!(host_prefixes("", "a/b"), vec!["a".to_string(), "a/b".to_string()]);
    assert!(host_prefixes("/srv", "").is_empty());
}
