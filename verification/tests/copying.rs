use webdav_wasi::copy_walk::{CopyTask, CopyWalk};
use webdav_wasi::error::{BackendError, IoErrorKind, IoFailure};
use webdav_wasi::fs_backend::{CopyPlan, FileSystemBackend};

fn plan() -> CopyPlan {
    CopyPlan { source: "/srv/a".to_string(), destination: "/srv/b".to_string() }
}

fn visit(task: Option<CopyTask>) -> (String, String) {
    match task {
        Some(CopyTask::Visit { source, destination }) => (source, destination),
        Some(CopyTask::Fail { error }) => panic!("unexpected failure {error:?}"),
        None => panic!("walk ended early"),
    }
}

fn names(items: &[&str]) -> Vec<String> {
    items.iter().map(|s| s.to_string()).collect()
}

#[test]
fn copy_walk_starts_at_the_source() {
    let mut walk = CopyWalk::new(&plan());
    assert_eq!(visit(walk.next_task()), ("/srv/a".to_string(), "/srv/b".to_string()));
    assert!(walk.next_task().is_none());
}

#[test]
fn copy_walk_is_depth_first_in_listing_order() {
    let mut walk = CopyWalk::new(&plan());
    visit(walk.next_task());
    walk.descend(&names(&["x", "y"]), None);
    assert_eq!(visit(walk.next_task()), ("/srv/a/x".to_string(), "/srv/b/x".to_string()));
    walk.descend(&names(&["inner"]), None);
    assert_eq!(
        visit(walk.next_task()),
        ("/srv/a/x/inner".to_string(), "/srv/b/x/inner".to_string())
    );
    assert_eq!(visit(walk.next_task()), ("/srv/a/y".to_string(), "/srv/b/y".to_string()));
    assert!(walk.next_task().is_none());
}

#[test]
fn copy_walk_reports_a_listing_failure_after_the_listed_entries() {
    let mut walk = CopyWalk::new(&plan());
    visit(walk.next_task());
    let failure = IoFailure { kind: IoErrorKind::PermissionDenied, message: "denied".to_string() };
    walk.descend(&names(&["x"]), Some(failure));
    assert_eq!(visit(walk.next_task()), ("/srv/a/x".to_string(), "/srv/b/x".to_string()));
    match walk.next_task() {
        Some(CopyTask::Fail { error }) => {
            assert_eq!(error, BackendError::PermissionDenied { path: "/srv/a".to_string() })
        }
        _ => panic!("expected the listing failure"),
    }
    assert!(walk.next_task().is_none());
}

#[test]
fn copy_walk_descends_only_into_a_visited_entry() {
    let mut walk = CopyWalk::new(&plan());
    walk.descend(&names(&["x"]), None);
    assert_eq!(visit(walk.next_task()), ("/srv/a".to_string(), "/srv/b".to_string()));
    walk.descend(&names(&[]), None);
    walk.descend(&names(&["late"]), None);
    assert!(walk.next_task().is_none());
}

#[test]
fn a_cloned_backend_serves_the_same_root() {
    let b = FileSystemBackend::new("/srv/data".to_string(), Ok(())).unwrap();
    let c = b.clone();
    assert_eq!(c.root(), b.root());
    assert_eq!(c.root(), "/srv/data");
}

#[test]
fn host_paths_sit_below_the_root_component() {
    let b = FileSystemBackend::new("/srv/data".to_string(), Ok(())).unwrap();
    for host in b.probe_paths("x/y") {
        assert!(host.starts_with("/srv/data/"));
    }
    let b = FileSystemBackend::new("/srv/data/".to_string(), Ok(())).unwrap();
    assert_eq!(b.probe_paths("x"), vec!["/srv/data/x".to_string()]);
}

#[test]
fn a_failed_host_call_ends_the_copy_walk() {
    let mut walk = CopyWalk::new(&plan());
    visit(walk.next_task());
    walk.descend(&names(&["x", "y"]), None);
    visit(walk.next_task());
    let error = walk.fail(BackendError::NotFound { path: "/srv/b/x".to_string() });
    assert_eq!(error, BackendError::NotFound { path: "/srv/b/x".to_string() });
    assert!(walk.next_task().is_none());
}

#[test]
fn a_failure_step_ends_the_copy_walk() {
    let mut walk = CopyWalk::new(&plan());
    visit(walk.next_task());
    let failure = IoFailure { kind: IoErrorKind::Other, message: "gone".to_string() };
    walk.descend(&names(&[]), Some(failure));
    match walk.next_task() {
        Some(CopyTask::Fail { error }) => {
            assert_eq!(error, BackendError::Other { message: "gone".to_string() })
        }
        _ => panic!("expected the listing failure"),
    }
    assert!(walk.next_task().is_none());
}
