use webdav_wasi::error::{map_io_error, BackendError, IoErrorKind, IoFailure};
use webdav_wasi::fs_backend::{copy_node, join_host, CopyNode, FileSystemBackend, HostProbe};
use webdav_wasi::metadata::{permissions_mode, sort_entries, DirEntry, Metadata};

fn meta(is_dir: bool, is_symlink: bool, len: u64) -> Metadata {
    Metadata {
        len,
        is_dir,
        is_file: !is_dir && !is_symlink,
        is_symlink,
        modified: None,
        created: None,
        accessed: None,
        permissions: 0o644,
    }
}

fn dir() -> Result<Metadata, IoFailure> {
    Ok(meta(true, false, 0))
}

fn file(len: u64) -> Result<Metadata, IoFailure> {
    Ok(meta(false, false, len))
}

fn link() -> Result<Metadata, IoFailure> {
    Ok(meta(false, true, 0))
}

fn failure(kind: IoErrorKind) -> IoFailure {
    IoFailure { kind, message: "host says no".to_string() }
}

fn missing() -> Result<Metadata, IoFailure> {
    Err(failure(IoErrorKind::NotFound))
}

fn probe(prefixes: Vec<Result<Metadata, IoFailure>>) -> HostProbe {
    HostProbe { root_stat: dir(), root_link_stat: dir(), prefixes }
}

fn backend() -> FileSystemBackend {
    FileSystemBackend::new("/srv/data".to_string(), Ok(())).unwrap()
}

#[test]
fn new_keeps_the_root() {
    let b = backend();
    assert_eq!(b.root(), "/srv/data");
}

#[test]
fn new_reports_a_failed_creation_with_the_root() {
    let r = FileSystemBackend::new("/ro".to_string(), Err(failure(IoErrorKind::ReadOnlyFilesystem)));
    assert_eq!(r.unwrap_err(), BackendError::ReadOnly);
    let r = FileSystemBackend::new("/x".to_string(), Err(failure(IoErrorKind::PermissionDenied)));
    assert_eq!(r.unwrap_err(), BackendError::PermissionDenied { path: "/x".to_string() });
}

#[test]
fn map_io_error_maps_every_kind() {
    let p = || "some/path".to_string();
    let cases = vec![
        (IoErrorKind::NotFound, BackendError::NotFound { path: p() }),
        (IoErrorKind::PermissionDenied, BackendError::PermissionDenied { path: p() }),
        (IoErrorKind::AlreadyExists, BackendError::AlreadyExists { path: p() }),
        (IoErrorKind::DirectoryNotEmpty, BackendError::DirectoryNotEmpty { path: p() }),
        (IoErrorKind::IsADirectory, BackendError::IsDirectory { path: p() }),
        (IoErrorKind::NotADirectory, BackendError::NotDirectory { path: p() }),
        (IoErrorKind::StorageFull, BackendError::NoSpace),
        (IoErrorKind::FileTooLarge, BackendError::FileTooLarge),
        (IoErrorKind::ReadOnlyFilesystem, BackendError::ReadOnly),
        (IoErrorKind::Unsupported, BackendError::NotSupported { operation: p() }),
        (IoErrorKind::Other, BackendError::Other { message: "host says no".to_string() }),
    ];
    for (kind, expected) in cases {
        assert_eq!(map_io_error(failure(kind), p()), expected);
    }
}

#[test]
fn probe_paths_lists_every_leading_part() {
    let b = backend();
    assert_eq!(
        b.probe_paths("a/b/c"),
        vec!["/srv/data/a".to_string(), "/srv/data/a/b".to_string(), "/srv/data/a/b/c".to_string()]
    );
}

#[test]
fn resolve_host_path_joins_under_the_root() {
    let b = backend();
    let p = probe(vec![dir(), file(3)]);
    assert_eq!(b.resolve_host_path("a/b", &p).unwrap(), "/srv/data/a/b");
    assert_eq!(b.resolve_host_path("", &probe(vec![])).unwrap(), "/srv/data");
}

#[test]
fn resolve_host_path_refuses_a_symlinked_part() {
    let b = backend();
    let p = probe(vec![link(), file(3)]);
    assert_eq!(
        b.resolve_host_path("a/b", &p),
        Err(BackendError::InvalidPath { path: "a/b".to_string() })
    );
    let p = probe(vec![dir(), link()]);
    assert_eq!(
        b.resolve_host_path("a/b", &p),
        Err(BackendError::InvalidPath { path: "a/b".to_string() })
    );
}

#[test]
fn metadata_reports_the_link_itself() {
    let b = backend();
    let r = b.metadata("/a/f.txt", &probe(vec![dir(), file(11)])).unwrap();
    assert_eq!(r.len, 11);
    assert!(!r.is_dir);
    let r = b.metadata("/a/missing", &probe(vec![dir(), missing()]));
    assert_eq!(r.unwrap_err(), BackendError::NotFound { path: "a/missing".to_string() });
}

#[test]
fn metadata_of_the_root_uses_the_root_link_stat() {
    let b = backend();
    let p = HostProbe { root_stat: dir(), root_link_stat: Ok(meta(false, true, 9)), prefixes: vec![] };
    let r = b.metadata("/", &p).unwrap();
    assert!(r.is_symlink);
    assert_eq!(r.len, 9);
}

#[test]
fn read_dir_wants_a_directory() {
    let b = backend();
    let t = b.read_dir("/a/", &probe(vec![dir()])).unwrap();
    assert_eq!(t.host, "/srv/data/a");
    assert_eq!(t.error_path, "/a/");
    assert_eq!(
        b.read_dir("/a/f", &probe(vec![dir(), file(1)])).err(),
        Some(BackendError::NotDirectory { path: "a/f".to_string() })
    );
}

#[test]
fn read_chunk_refuses_a_directory() {
    let b = backend();
    assert_eq!(
        b.read_chunk("a", &probe(vec![dir()])).err(),
        Some(BackendError::IsDirectory { path: "a".to_string() })
    );
    let t = b.read_chunk("a/hello.txt", &probe(vec![dir(), file(11)])).unwrap();
    assert_eq!(t.host, "/srv/data/a/hello.txt");
    assert_eq!(t.error_path, "a/hello.txt");
}

#[test]
fn truncate_refuses_missing_and_directories() {
    let b = backend();
    assert_eq!(
        b.truncate("/gone", &probe(vec![missing()])).err(),
        Some(BackendError::NotFound { path: "gone".to_string() })
    );
    assert_eq!(
        b.truncate("/", &probe(vec![])).err(),
        Some(BackendError::IsDirectory { path: "".to_string() })
    );
    assert_eq!(b.truncate("f", &probe(vec![file(5)])).unwrap().host, "/srv/data/f");
}

#[test]
fn write_chunk_plans_the_write_and_its_end() {
    let b = backend();
    let plan = b.write_chunk("hello.txt", 0, 11, &probe(vec![missing()])).unwrap();
    assert_eq!(plan.target.host, "/srv/data/hello.txt");
    assert_eq!(plan.target.error_path, "hello.txt");
    assert_eq!(plan.end, 11);
    let plan = b.write_chunk("/d/x", 100, 7, &probe(vec![dir(), file(3)])).unwrap();
    assert_eq!(plan.end, 107);
}

#[test]
fn write_chunk_end_saturates() {
    let b = backend();
    let plan = b.write_chunk("f", u64::MAX - 1, 5, &probe(vec![file(0)])).unwrap();
    assert_eq!(plan.end, u64::MAX);
}

#[test]
fn write_chunk_refuses_the_root() {
    let b = backend();
    assert_eq!(
        b.write_chunk("/", 0, 1, &probe(vec![])).err(),
        Some(BackendError::PermissionDenied { path: "/".to_string() })
    );
}

#[test]
fn write_chunk_needs_an_existing_parent_directory() {
    let b = backend();
    assert_eq!(
        b.write_chunk("a/b", 0, 1, &probe(vec![missing(), missing()])).err(),
        Some(BackendError::NotFound { path: "a".to_string() })
    );
    assert_eq!(
        b.write_chunk("a/b", 0, 1, &probe(vec![file(2), missing()])).err(),
        Some(BackendError::NotDirectory { path: "a".to_string() })
    );
    assert_eq!(
        b.write_chunk("a/b", 0, 1, &probe(vec![link(), missing()])).err(),
        Some(BackendError::InvalidPath { path: "a".to_string() })
    );
}

#[test]
fn write_chunk_refuses_a_directory_target() {
    let b = backend();
    assert_eq!(
        b.write_chunk("a/b", 0, 1, &probe(vec![dir(), dir()])).err(),
        Some(BackendError::IsDirectory { path: "a/b".to_string() })
    );
}

#[test]
fn create_dir_of_the_root_is_nothing_to_do() {
    let b = backend();
    assert!(b.create_dir("/", &probe(vec![])).unwrap().is_none());
    let t = b.create_dir("/new", &probe(vec![missing()])).unwrap().unwrap();
    assert_eq!(t.host, "/srv/data/new");
    assert_eq!(t.error_path, "/new");
}

#[test]
fn remove_dir_refuses_the_root_and_remove_file_does_not() {
    let b = backend();
    assert_eq!(
        b.remove_dir("", &probe(vec![])).err(),
        Some(BackendError::PermissionDenied { path: "".to_string() })
    );
    assert_eq!(b.remove_file("", &probe(vec![])).unwrap().host, "/srv/data");
    assert_eq!(b.remove_dir("/d", &probe(vec![dir()])).unwrap().host, "/srv/data/d");
}

#[test]
fn rename_replaces_an_existing_file() {
    let b = backend();
    let plan = b.rename("/a", "/b", &probe(vec![file(1)]), &probe(vec![file(2)])).unwrap();
    assert_eq!(plan.source, "/srv/data/a");
    assert_eq!(plan.destination, "/srv/data/b");
    assert!(plan.replace);
    assert_eq!(plan.error_path, "a");
    let plan = b.rename("/a", "/c", &probe(vec![file(1)]), &probe(vec![missing()])).unwrap();
    assert!(!plan.replace);
}

#[test]
fn rename_never_replaces_a_directory() {
    let b = backend();
    assert_eq!(
        b.rename("/a", "/b", &probe(vec![dir()]), &probe(vec![file(2)])).err(),
        Some(BackendError::AlreadyExists { path: "b".to_string() })
    );
    assert_eq!(
        b.rename("/a", "/b", &probe(vec![file(1)]), &probe(vec![dir()])).err(),
        Some(BackendError::AlreadyExists { path: "b".to_string() })
    );
}

#[test]
fn rename_of_the_root_is_refused() {
    let b = backend();
    assert_eq!(
        b.rename("/", "/b", &probe(vec![]), &probe(vec![missing()])).err(),
        Some(BackendError::PermissionDenied { path: "".to_string() })
    );
    assert_eq!(
        b.rename("/a", "", &probe(vec![file(1)]), &probe(vec![])).err(),
        Some(BackendError::PermissionDenied { path: "".to_string() })
    );
}

#[test]
fn rename_of_a_missing_source_reports_it() {
    let b = backend();
    assert_eq!(
        b.rename("/a", "/b", &probe(vec![missing()]), &probe(vec![missing()])).err(),
        Some(BackendError::NotFound { path: "a".to_string() })
    );
}

#[test]
fn copy_plans_between_host_paths() {
    let b = backend();
    let plan = b.copy("/a", "/d/b", &probe(vec![dir()]), &probe(vec![dir(), missing()])).unwrap();
    assert_eq!(plan.source, "/srv/data/a");
    assert_eq!(plan.destination, "/srv/data/d/b");
    assert_eq!(
        b.copy("/a", "/d/b", &probe(vec![dir()]), &probe(vec![missing(), missing()])).err(),
        Some(BackendError::NotFound { path: "d".to_string() })
    );
}

#[test]
fn copy_node_decides_per_node() {
    let src = "/srv/data/a";
    let dst = "/srv/data/b";
    match copy_node(src, dst, &dir(), &missing()).unwrap() {
        CopyNode::Directory { create_error_path, list_error_path } => {
            assert_eq!(create_error_path, dst);
            assert_eq!(list_error_path, src);
        }
        CopyNode::File { .. } => panic!("expected a directory"),
    }
    assert_eq!(
        copy_node(src, dst, &dir(), &file(1)).err(),
        Some(BackendError::AlreadyExists { path: dst.to_string() })
    );
    match copy_node(src, dst, &file(1), &file(2)).unwrap() {
        CopyNode::File { error_path } => assert_eq!(error_path, dst),
        CopyNode::Directory { .. } => panic!("expected a file"),
    }
    assert_eq!(
        copy_node(src, dst, &file(1), &dir()).err(),
        Some(BackendError::AlreadyExists { path: dst.to_string() })
    );
    assert_eq!(
        copy_node(src, dst, &missing(), &missing()).err(),
        Some(BackendError::NotFound { path: src.to_string() })
    );
}

#[test]
fn join_host_adds_one_separator() {
    assert_eq!(join_host("/srv", "x"), "/srv/x");
    assert_eq!(join_host("/srv/", "x"), "/srv/x");
    assert_eq!(join_host("", "x"), "x");
}

#[test]
fn sort_entries_orders_by_name() {
    let names = ["b.txt", "A", "a", "ab", "", "é", "z"];
    let entries: Vec<DirEntry> =
        names.iter().map(|n| DirEntry { name: n.to_string(), metadata: meta(false, false, 0) }).collect();
    let sorted = sort_entries(entries);
    let got: Vec<&str> = sorted.iter().map(|e| e.name.as_str()).collect();
    let mut expected: Vec<&str> = names.to_vec();
    expected.sort();
    assert_eq!(got, expected);
    assert_eq!(got, vec!["", "A", "a", "ab", "b.txt", "z", "é"]);
}

#[test]
fn permissions_mode_prefers_the_host_mode() {
    assert_eq!(permissions_mode(Some(0o100600), true, false), 0o100600);
    assert_eq!(permissions_mode(None, true, true), 0o444);
    assert_eq!(permissions_mode(None, false, true), 0o755);
    assert_eq!(permissions_mode(None, false, false), 0o644);
}

#[test]
fn sort_entries_keeps_equal_names_in_input_order() {
    let entries = vec![
        DirEntry { name: "a".to_string(), metadata: meta(false, false, 1) },
        DirEntry { name: "b".to_string(), metadata: meta(false, false, 2) },
        DirEntry { name: "a".to_string(), metadata: meta(false, false, 3) },
    ];
    let sorted = sort_entries(entries);
    let got: Vec<(String, u64)> = sorted.iter().map(|e| (e.name.clone(), e.metadata.len)).collect();
    assert_eq!(got, vec![("a".to_string(), 1), ("a".to_string(), 3), ("b".to_string(), 2)]);
}

#[test]
fn every_operation_refuses_parent_segments() {
    let b = backend();
    let bad = "a/../b";
    let invalid = || Some(BackendError::InvalidPath { path: bad.to_string() });
    let p = probe(vec![]);
    assert_eq!(b.metadata(bad, &p).err(), invalid());
    assert_eq!(b.read_dir(bad, &p).err(), invalid());
    assert_eq!(b.read_chunk(bad, &p).err(), invalid());
    assert_eq!(b.write_chunk(bad, 0, 1, &p).err(), invalid());
    assert_eq!(b.truncate(bad, &p).err(), invalid());
    assert_eq!(b.create_dir(bad, &p).err(), invalid());
    assert_eq!(b.remove_dir(bad, &p).err(), invalid());
    assert_eq!(b.remove_file(bad, &p).err(), invalid());
    assert_eq!(b.rename(bad, "x", &p, &probe(vec![missing()])).err(), invalid());
    assert_eq!(b.copy(bad, "x", &p, &probe(vec![missing()])).err(), invalid());
}

#[test]
fn plans_stay_under_the_root() {
    let b = backend();
    let plan = b.write_chunk("//x/./y", 0, 1, &probe(vec![dir(), missing()])).unwrap();
    assert!(plan.target.host.starts_with(b.root()));
    for host in b.probe_paths("x/y") {
        assert!(host.starts_with(b.root()));
    }
}

#[test]
fn metadata_of_a_path_and_of_its_normal_form_agree() {
    let b = backend();
    let p = probe(vec![dir(), file(4)]);
    let a = b.metadata("/d/./f//", &p).unwrap();
    let c = b.metadata("d/f", &p).unwrap();
    assert_eq!(a.len, c.len);
    assert_eq!(a.is_dir, c.is_dir);
}

#[test]
fn ensure_parent_dir_outcomes() {
    let b = backend();
    assert_eq!(
        b.ensure_parent_dir("", &probe(vec![])).err(),
        Some(BackendError::PermissionDenied { path: "".to_string() })
    );
    assert_eq!(b.ensure_parent_dir("a/b", &probe(vec![dir(), missing()])).unwrap(), "/srv/data/a");
    assert_eq!(b.ensure_parent_dir("top", &probe(vec![missing()])).unwrap(), "/srv/data");
    assert_eq!(
        b.ensure_parent_dir("a/b", &probe(vec![missing(), missing()])).err(),
        Some(BackendError::NotFound { path: "a".to_string() })
    );
    assert_eq!(
        b.ensure_parent_dir("a/b", &probe(vec![file(1), missing()])).err(),
        Some(BackendError::NotDirectory { path: "a".to_string() })
    );
    assert_eq!(
        b.ensure_parent_dir("a/b", &probe(vec![link(), missing()])).err(),
        Some(BackendError::InvalidPath { path: "a".to_string() })
    );
}
