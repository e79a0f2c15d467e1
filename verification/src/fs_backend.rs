//! A backend that serves a directory of the host file system.
//!
//! Every operation is decided here from the request and from what the host
//! reported for the paths involved (a [`HostProbe`] per path); the caller
//! makes the host calls, hands their results in, and carries out the plan it
//! gets back. Every host path a plan names lies under the root, and none of
//! its leading components (itself included) was reported to be a symbolic
//! link.
use vstd::prelude::*;

use crate::error::{io_failure_view, map_io_error, BackendError, ErrorView, IoFailure, Result};
use crate::metadata::Metadata;
use crate::path::{
    host_path_of, host_prefixes, is_normalized, lemma_normalized_rejoins,
    lemma_host_path_of_normalized, lemma_host_path_within_root, lemma_normalize_idempotent,
    lemma_normalized_segments, under_root, lemma_parent_segments,
    normalize_outcome, normalized_view, normalize_path, parent_dir, parent_view,
    path_segments, push_component,
};
use crate::text::{chars_of, string_from_chars, string_from_str};

verus! {

/// What the host reported for one normalized path: `fs::metadata` and
/// `fs::symlink_metadata` of the root, and `fs::symlink_metadata` of each
/// leading part of the path under the root (`root/a`, `root/a/b`, ...), in
/// the order [`host_prefixes`] gives them.
///
/// A leading part that is not a symbolic link has the same metadata whether
/// or not links are followed, so the entry of a part also stands for its
/// `fs::metadata` once it is known not to be a link.
pub struct HostProbe {
    pub root_stat: std::result::Result<Metadata, IoFailure>,
    pub root_link_stat: std::result::Result<Metadata, IoFailure>,
    pub prefixes: Vec<std::result::Result<Metadata, IoFailure>>,
}

/// Leading part `i` of the probed path is a symbolic link.
pub open spec fn is_link_at(probe: HostProbe, i: int) -> bool {
    probe.prefixes@[i] matches Ok(m) && m.is_symlink
}

/// Some of the first `count` leading parts is a symbolic link.
pub open spec fn link_among(probe: HostProbe, count: int) -> bool {
    exists|i: int| 0 <= i < count && #[trigger] is_link_at(probe, i)
}

/// The metadata of the first `count` segments (the root for none), links
/// followed.
pub open spec fn stat_at(probe: HostProbe, count: int) -> std::result::Result<Metadata, IoFailure> {
    if count == 0 {
        probe.root_stat
    } else {
        probe.prefixes@[count - 1]
    }
}

/// The metadata of the first `count` segments (the root for none), links
/// not followed.
pub open spec fn link_stat_at(probe: HostProbe, count: int) -> std::result::Result<
    Metadata,
    IoFailure,
> {
    if count == 0 {
        probe.root_link_stat
    } else {
        probe.prefixes@[count - 1]
    }
}

/// `probe` has an entry for every segment of the normalized path `n`.
pub open spec fn probe_covers(probe: HostProbe, n: Seq<char>) -> bool {
    probe.prefixes.len() >= path_segments(n).len()
}

/// The probe of what normalizing `path` gives covers that path.
pub open spec fn probe_fits(probe: HostProbe, path: Seq<char>) -> bool {
    normalized_view(path) matches Some(n) ==> probe.prefixes.len() == path_segments(n).len()
}

/// A host path to act on, and the path that a failure of that action is
/// reported with.
pub struct HostTarget {
    pub host: String,
    pub error_path: String,
}

pub struct TargetView {
    pub host: Seq<char>,
    pub error_path: Seq<char>,
}

impl View for HostTarget {
    type V = TargetView;

    open spec fn view(&self) -> TargetView {
        TargetView { host: self.host@, error_path: self.error_path@ }
    }
}

/// Where to write a chunk, and the end offset reported once it is written.
pub struct WritePlan {
    pub target: HostTarget,
    pub end: u64,
}

pub struct WritePlanView {
    pub target: TargetView,
    pub end: u64,
}

impl View for WritePlan {
    type V = WritePlanView;

    open spec fn view(&self) -> WritePlanView {
        WritePlanView { target: self.target@, end: self.end }
    }
}

/// A rename on the host: first remove the file at `destination` where
/// `replace` says so (a failure reported with `destination`), then move
/// `source` to `destination` (a failure reported with `error_path`).
pub struct RenamePlan {
    pub source: String,
    pub destination: String,
    pub replace: bool,
    pub error_path: String,
}

pub struct RenamePlanView {
    pub source: Seq<char>,
    pub destination: Seq<char>,
    pub replace: bool,
    pub error_path: Seq<char>,
}

impl View for RenamePlan {
    type V = RenamePlanView;

    open spec fn view(&self) -> RenamePlanView {
        RenamePlanView {
            source: self.source@,
            destination: self.destination@,
            replace: self.replace,
            error_path: self.error_path@,
        }
    }
}

/// A copy on the host from `source` to `destination`.
pub struct CopyPlan {
    pub source: String,
    pub destination: String,
}

pub struct CopyPlanView {
    pub source: Seq<char>,
    pub destination: Seq<char>,
}

impl View for CopyPlan {
    type V = CopyPlanView;

    open spec fn view(&self) -> CopyPlanView {
        CopyPlanView { source: self.source@, destination: self.destination@ }
    }
}

/// What to do with one node of a copy.
pub enum CopyNode {
    /// Create `destination` as a directory (a failure reported with
    /// `create_error_path`), then copy every entry of `source` into it (a
    /// failure to list reported with `list_error_path`).
    Directory { create_error_path: String, list_error_path: String },
    /// Copy the file's contents (a failure reported with `error_path`).
    File { error_path: String },
}

pub enum CopyNodeView {
    Directory { create_error_path: Seq<char>, list_error_path: Seq<char> },
    File { error_path: Seq<char> },
}

impl View for CopyNode {
    type V = CopyNodeView;

    open spec fn view(&self) -> CopyNodeView {
        match self {
            CopyNode::Directory { create_error_path, list_error_path } => CopyNodeView::Directory {
                create_error_path: create_error_path@,
                list_error_path: list_error_path@,
            },
            CopyNode::File { error_path } => CopyNodeView::File { error_path: error_path@ },
        }
    }
}

/// The mathematical value of a result.
pub open spec fn outcome<T: View>(r: Result<T>) -> std::result::Result<T::V, ErrorView> {
    match r {
        Ok(t) => Ok(t@),
        Err(e) => Err(e@),
    }
}

/// The mathematical value of a metadata result.
pub open spec fn metadata_outcome(r: Result<Metadata>) -> std::result::Result<Metadata, ErrorView> {
    match r {
        Ok(m) => Ok(m),
        Err(e) => Err(e@),
    }
}

/// The mathematical value of an optional target.
pub open spec fn optional_outcome(r: Result<Option<HostTarget>>) -> std::result::Result<
    Option<TargetView>,
    ErrorView,
> {
    match r {
        Ok(Some(t)) => Ok(Some(t@)),
        Ok(None) => Ok(None),
        Err(e) => Err(e@),
    }
}

/// The host path of normalized `n` under `root`: the root itself for the
/// empty path, an invalid path where a leading part is a symbolic link.
pub open spec fn resolve_view(root: Seq<char>, n: Seq<char>, probe: HostProbe) -> std::result::Result<
    Seq<char>,
    ErrorView,
> {
    let segs = path_segments(n);
    if segs.len() == 0 {
        Ok(root)
    } else if link_among(probe, segs.len() as int) {
        Err(ErrorView::InvalidPath { path: n })
    } else {
        Ok(host_path_of(root, segs))
    }
}

/// The host directory that is to hold normalized `n`: the host path of its
/// parent, which must exist and be a directory.
pub open spec fn parent_host_view(root: Seq<char>, n: Seq<char>, probe: HostProbe) -> std::result::Result<
    Seq<char>,
    ErrorView,
> {
    match parent_view(n) {
        None => Err(ErrorView::PermissionDenied { path: n }),
        Some(p) => match resolve_view(root, p, probe) {
            Err(e) => Err(e),
            Ok(h) => match stat_at(probe, path_segments(p).len() as int) {
                Err(f) => Err(io_failure_view(f, p)),
                Ok(m) => if m.is_dir {
                    Ok(h)
                } else {
                    Err(ErrorView::NotDirectory { path: p })
                },
            },
        },
    }
}

/// What `metadata` reports for `path`.
pub open spec fn metadata_view(root: Seq<char>, path: Seq<char>, probe: HostProbe) -> std::result::Result<
    Metadata,
    ErrorView,
> {
    match normalize_outcome(path) {
        Err(e) => Err(e),
        Ok(n) => match resolve_view(root, n, probe) {
            Err(e) => Err(e),
            Ok(_) => match link_stat_at(probe, path_segments(n).len() as int) {
                Ok(m) => Ok(m),
                Err(f) => Err(io_failure_view(f, n)),
            },
        },
    }
}

/// The target of an operation on an existing entry of `path`: whether the
/// entry must be a directory (`want_dir`) or must not be one, and the error
/// for the wrong kind.
pub open spec fn existing_target_view(
    root: Seq<char>,
    path: Seq<char>,
    probe: HostProbe,
    want_dir: bool,
) -> std::result::Result<TargetView, ErrorView> {
    match normalize_outcome(path) {
        Err(e) => Err(e),
        Ok(n) => match resolve_view(root, n, probe) {
            Err(e) => Err(e),
            Ok(h) => match stat_at(probe, path_segments(n).len() as int) {
                Err(f) => Err(io_failure_view(f, n)),
                Ok(m) => if want_dir && !m.is_dir {
                    Err(ErrorView::NotDirectory { path: n })
                } else if !want_dir && m.is_dir {
                    Err(ErrorView::IsDirectory { path: n })
                } else {
                    Ok(TargetView { host: h, error_path: path })
                },
            },
        },
    }
}

/// The end offset of a write of `len` bytes at `start`, saturating at the
/// largest `u64`.
pub open spec fn chunk_end(start: u64, len: usize) -> u64 {
    if start + len > u64::MAX {
        u64::MAX
    } else {
        (start + len) as u64
    }
}

/// What `write_chunk` decides for `len` bytes at `start` of `path`.
pub open spec fn write_view(
    root: Seq<char>,
    path: Seq<char>,
    start: u64,
    len: usize,
    probe: HostProbe,
) -> std::result::Result<WritePlanView, ErrorView> {
    match normalize_outcome(path) {
        Err(e) => Err(e),
        Ok(n) => if n.len() == 0 {
            Err(ErrorView::PermissionDenied { path })
        } else {
            match parent_host_view(root, n, probe) {
                Err(e) => Err(e),
                Ok(_) => match resolve_view(root, n, probe) {
                    Err(e) => Err(e),
                    Ok(h) => if stat_at(probe, path_segments(n).len() as int) matches Ok(m)
                        && m.is_dir {
                        Err(ErrorView::IsDirectory { path: n })
                    } else {
                        Ok(
                            WritePlanView {
                                target: TargetView { host: h, error_path: path },
                                end: chunk_end(start, len),
                            },
                        )
                    },
                },
            }
        },
    }
}

/// What `create_dir` decides for `path`: nothing to do for the root.
pub open spec fn create_dir_view(root: Seq<char>, path: Seq<char>, probe: HostProbe) -> std::result::Result<
    Option<TargetView>,
    ErrorView,
> {
    match normalize_outcome(path) {
        Err(e) => Err(e),
        Ok(n) => if n.len() == 0 {
            Ok(None)
        } else {
            match parent_host_view(root, n, probe) {
                Err(e) => Err(e),
                Ok(_) => match resolve_view(root, n, probe) {
                    Err(e) => Err(e),
                    Ok(h) => Ok(Some(TargetView { host: h, error_path: path })),
                },
            }
        },
    }
}

/// What removing `path` decides; the root may not be removed as a
/// directory (`refuse_root`).
pub open spec fn remove_view(root: Seq<char>, path: Seq<char>, probe: HostProbe, refuse_root: bool) -> std::result::Result<
    TargetView,
    ErrorView,
> {
    match normalize_outcome(path) {
        Err(e) => Err(e),
        Ok(n) => if refuse_root && n.len() == 0 {
            Err(ErrorView::PermissionDenied { path })
        } else {
            match resolve_view(root, n, probe) {
                Err(e) => Err(e),
                Ok(h) => Ok(TargetView { host: h, error_path: path }),
            }
        },
    }
}

/// The checks that rename and copy share: both paths normalize, neither is
/// the root, the destination's parent is a directory, both resolve. Gives
/// the normalized source and destination and their host paths.
pub open spec fn transfer_view(
    root: Seq<char>,
    from: Seq<char>,
    to: Seq<char>,
    from_probe: HostProbe,
    to_probe: HostProbe,
) -> std::result::Result<(Seq<char>, Seq<char>, Seq<char>, Seq<char>), ErrorView> {
    match normalize_outcome(from) {
        Err(e) => Err(e),
        Ok(f) => match normalize_outcome(to) {
            Err(e) => Err(e),
            Ok(t) => if f.len() == 0 || t.len() == 0 {
                Err(ErrorView::PermissionDenied { path: if f.len() == 0 { f } else { t } })
            } else {
                match parent_host_view(root, t, to_probe) {
                    Err(e) => Err(e),
                    Ok(_) => match resolve_view(root, f, from_probe) {
                        Err(e) => Err(e),
                        Ok(sh) => match resolve_view(root, t, to_probe) {
                            Err(e) => Err(e),
                            Ok(dh) => Ok((f, t, sh, dh)),
                        },
                    },
                }
            },
        },
    }
}

/// What `rename` decides: a source that cannot be read is an error; an
/// existing destination is replaced only where neither it nor the source
/// is a directory.
pub open spec fn rename_view(
    root: Seq<char>,
    from: Seq<char>,
    to: Seq<char>,
    from_probe: HostProbe,
    to_probe: HostProbe,
) -> std::result::Result<RenamePlanView, ErrorView> {
    match transfer_view(root, from, to, from_probe, to_probe) {
        Err(e) => Err(e),
        Ok((f, t, sh, dh)) => match stat_at(from_probe, path_segments(f).len() as int) {
            Err(e) => Err(io_failure_view(e, f)),
            Ok(sm) => match stat_at(to_probe, path_segments(t).len() as int) {
                Ok(dm) => if sm.is_dir || dm.is_dir {
                    Err(ErrorView::AlreadyExists { path: t })
                } else {
                    Ok(RenamePlanView { source: sh, destination: dh, replace: true, error_path: f })
                },
                Err(_) => Ok(
                    RenamePlanView { source: sh, destination: dh, replace: false, error_path: f },
                ),
            },
        },
    }
}

/// What `copy` decides.
pub open spec fn copy_view(
    root: Seq<char>,
    from: Seq<char>,
    to: Seq<char>,
    from_probe: HostProbe,
    to_probe: HostProbe,
) -> std::result::Result<CopyPlanView, ErrorView> {
    match transfer_view(root, from, to, from_probe, to_probe) {
        Err(e) => Err(e),
        Ok((f, t, sh, dh)) => Ok(CopyPlanView { source: sh, destination: dh }),
    }
}

/// What a copy does with one node, from `fs::metadata` of the source and
/// of the destination.
pub open spec fn copy_node_view(
    source: Seq<char>,
    destination: Seq<char>,
    source_stat: std::result::Result<Metadata, IoFailure>,
    destination_stat: std::result::Result<Metadata, IoFailure>,
) -> std::result::Result<CopyNodeView, ErrorView> {
    match source_stat {
        Err(f) => Err(io_failure_view(f, source)),
        Ok(m) => if m.is_dir {
            if destination_stat is Ok {
                Err(ErrorView::AlreadyExists { path: destination })
            } else {
                Ok(
                    CopyNodeView::Directory {
                        create_error_path: destination,
                        list_error_path: source,
                    },
                )
            }
        } else if destination_stat matches Ok(d) && d.is_dir {
            Err(ErrorView::AlreadyExists { path: destination })
        } else {
            Ok(CopyNodeView::File { error_path: destination })
        },
    }
}

fn clone_string(s: &String) -> (r: String)
    ensures
        r@ == s@,
{
    s.clone()
}

/// Whether some entry of `prefixes` before `count` is a symbolic link.
fn any_link(probe: &HostProbe, count: usize) -> (r: bool)
    requires
        count <= probe.prefixes.len(),
    ensures
        r == link_among(*probe, count as int),
{
    let mut i: usize = 0;
    while i < count
        invariant
            i <= count <= probe.prefixes.len(),
            forall|k: int| 0 <= k < i ==> !#[trigger] is_link_at(*probe, k),
        decreases count - i,
    {
        let linked = match &probe.prefixes[i] {
            Ok(m) => m.is_symlink,
            Err(_) => false,
        };
        if linked {
            assert(is_link_at(*probe, i as int));
            return true;
        }
        i = i + 1;
    }
    false
}

/// The host metadata of the first `count` segments, links followed.
fn stat_of(probe: &HostProbe, count: usize) -> (r: &std::result::Result<Metadata, IoFailure>)
    requires
        count <= probe.prefixes.len(),
    ensures
        *r == stat_at(*probe, count as int),
{
    if count == 0 {
        &probe.root_stat
    } else {
        &probe.prefixes[count - 1]
    }
}

/// The host metadata of the first `count` segments, links not followed.
fn link_stat_of(probe: &HostProbe, count: usize) -> (r: &std::result::Result<Metadata, IoFailure>)
    requires
        count <= probe.prefixes.len(),
    ensures
        *r == link_stat_at(*probe, count as int),
{
    if count == 0 {
        &probe.root_link_stat
    } else {
        &probe.prefixes[count - 1]
    }
}

fn copy_failure(f: &IoFailure) -> (r: IoFailure)
    ensures
        r.kind == f.kind,
        r.message@ == f.message@,
{
    IoFailure { kind: f.kind, message: clone_string(&f.message) }
}

/// A backend that serves the directory `root` of the host.
#[derive(Debug)]
pub struct FileSystemBackend {
    root: String,
}

impl Clone for FileSystemBackend {
    /// A backend serving the same root.
    fn clone(&self) -> (r: Self)
        ensures
            r.root_path() == self.root_path(),
    {
        FileSystemBackend { root: clone_string(&self.root) }
    }
}

impl FileSystemBackend {
    /// The host path of the served directory.
    pub closed spec fn root_path(&self) -> Seq<char> {
        self.root@
    }

    /// A backend serving `root`, given what creating that directory (and its
    /// parents) on the host gave: a failure there is reported with `root`.
    pub fn new(root: String, created: std::result::Result<(), IoFailure>) -> (r: Result<Self>)
        ensures
            match created {
                Ok(()) => r matches Ok(b) && b.root_path() == root@,
                Err(f) => r matches Err(e) && e@ == io_failure_view(f, root@),
            },
    {
        match created {
            Ok(()) => Ok(FileSystemBackend { root }),
            Err(f) => Err(map_io_error(f, root)),
        }
    }

    /// The host path of the served directory.
    pub fn root(&self) -> (r: &str)
        ensures
            r@ == self.root_path(),
    {
        self.root.as_str()
    }

    /// The host paths that a [`HostProbe`] of `normalized` reports on.
    pub fn probe_paths(&self, normalized: &str) -> (r: Vec<String>)
        ensures
            r.len() == path_segments(normalized@).len(),
            forall|i: int|
                0 <= i < r.len() ==> #[trigger] r[i]@ == host_path_of(
                    self.root_path(),
                    path_segments(normalized@).take(i + 1),
                ),
    {
        host_prefixes(self.root.as_str(), normalized)
    }

    /// The host path of `normalized`, refused where one of its leading
    /// parts is a symbolic link.
    pub fn resolve_host_path(&self, normalized: &str, probe: &HostProbe) -> (r: Result<String>)
        requires
            probe_covers(*probe, normalized@),
        ensures
            outcome(r) == resolve_view(self.root_path(), normalized@, *probe),
    {
        let hosts = host_prefixes(self.root.as_str(), normalized);
        let count = hosts.len();
        if count == 0 {
            return Ok(clone_string(&self.root));
        }
        if any_link(probe, count) {
            proof {
                lemma_normalized_rejoins(normalized@);
            }
            return Err(BackendError::InvalidPath { path: string_from_str(normalized) });
        }
        let host = clone_string(&hosts[count - 1]);
        assert(path_segments(normalized@).take(count as int) =~= path_segments(normalized@));
        Ok(host)
    }

    /// The host directory that is to hold `normalized`: its parent, which
    /// must resolve, exist and be a directory. The empty path has no parent.
    pub fn ensure_parent_dir(&self, normalized: &str, probe: &HostProbe) -> (r: Result<String>)
        requires
            probe_covers(*probe, normalized@),
        ensures
            outcome(r) == parent_host_view(self.root_path(), normalized@, *probe),
    {
        let parent = match parent_dir(normalized) {
            Some(p) => p,
            None => {
                return Err(BackendError::PermissionDenied { path: string_from_str(normalized) });
            },
        };
        proof {
            lemma_parent_segments(normalized@);
        }
        let parent_path = match self.resolve_host_path(parent, probe) {
            Ok(h) => h,
            Err(e) => return Err(e),
        };
        let count = host_prefixes(self.root.as_str(), parent).len();
        match stat_of(probe, count) {
            Err(f) => Err(map_io_error(copy_failure(f), string_from_str(parent))),
            Ok(m) => {
                if !m.is_dir {
                    Err(BackendError::NotDirectory { path: string_from_str(parent) })
                } else {
                    Ok(parent_path)
                }
            },
        }
    }

    /// The metadata of `path`, links not followed.
    pub fn metadata(&self, path: &str, probe: &HostProbe) -> (r: Result<Metadata>)
        requires
            probe_fits(*probe, path@),
        ensures
            metadata_outcome(r) == metadata_view(self.root_path(), path@, *probe),
    {
        let normalized = match normalize_path(path) {
            Ok(n) => n,
            Err(e) => return Err(e),
        };
        match self.resolve_host_path(normalized.as_str(), probe) {
            Ok(_) => {},
            Err(e) => return Err(e),
        }
        let count = host_prefixes(self.root.as_str(), normalized.as_str()).len();
        match link_stat_of(probe, count) {
            Ok(m) => Ok(*m),
            Err(f) => Err(map_io_error(copy_failure(f), normalized)),
        }
    }

    /// The host entry of `path`, which must exist and be a directory
    /// (`want_dir`) or not be one.
    fn existing_target(&self, path: &str, probe: &HostProbe, want_dir: bool) -> (r: Result<
        HostTarget,
    >)
        requires
            probe_fits(*probe, path@),
        ensures
            outcome(r) == existing_target_view(self.root_path(), path@, *probe, want_dir),
    {
        let normalized = match normalize_path(path) {
            Ok(n) => n,
            Err(e) => return Err(e),
        };
        let host = match self.resolve_host_path(normalized.as_str(), probe) {
            Ok(h) => h,
            Err(e) => return Err(e),
        };
        let count = host_prefixes(self.root.as_str(), normalized.as_str()).len();
        match stat_of(probe, count) {
            Err(f) => Err(map_io_error(copy_failure(f), normalized)),
            Ok(m) => {
                if want_dir && !m.is_dir {
                    Err(BackendError::NotDirectory { path: normalized })
                } else if !want_dir && m.is_dir {
                    Err(BackendError::IsDirectory { path: normalized })
                } else {
                    Ok(HostTarget { host, error_path: string_from_str(path) })
                }
            },
        }
    }

    /// The directory to list for `path`; a failure while listing is
    /// reported with `path`.
    pub fn read_dir(&self, path: &str, probe: &HostProbe) -> (r: Result<HostTarget>)
        requires
            probe_fits(*probe, path@),
        ensures
            outcome(r) == existing_target_view(self.root_path(), path@, *probe, true),
    {
        self.existing_target(path, probe, true)
    }

    /// The file to read a chunk of for `path`; a failure while reading is
    /// reported with `path`.
    pub fn read_chunk(&self, path: &str, probe: &HostProbe) -> (r: Result<HostTarget>)
        requires
            probe_fits(*probe, path@),
        ensures
            outcome(r) == existing_target_view(self.root_path(), path@, *probe, false),
    {
        self.existing_target(path, probe, false)
    }

    /// The file to cut to a new length for `path`; a failure there is
    /// reported with `path`.
    pub fn truncate(&self, path: &str, probe: &HostProbe) -> (r: Result<HostTarget>)
        requires
            probe_fits(*probe, path@),
        ensures
            outcome(r) == existing_target_view(self.root_path(), path@, *probe, false),
    {
        self.existing_target(path, probe, false)
    }

    /// Where to write `len` bytes at offset `start` for `path` (the file is
    /// created where missing), and the end offset reported afterwards.
    pub fn write_chunk(&self, path: &str, start: u64, len: usize, probe: &HostProbe) -> (r: Result<
        WritePlan,
    >)
        requires
            probe_fits(*probe, path@),
        ensures
            outcome(r) == write_view(self.root_path(), path@, start, len, *probe),
    {
        let normalized = match normalize_path(path) {
            Ok(n) => n,
            Err(e) => return Err(e),
        };
        if normalized.as_str().is_empty() {
            return Err(BackendError::PermissionDenied { path: string_from_str(path) });
        }
        match self.ensure_parent_dir(normalized.as_str(), probe) {
            Ok(_) => {},
            Err(e) => return Err(e),
        }
        let host = match self.resolve_host_path(normalized.as_str(), probe) {
            Ok(h) => h,
            Err(e) => return Err(e),
        };
        let count = host_prefixes(self.root.as_str(), normalized.as_str()).len();
        let is_dir = match stat_of(probe, count) {
            Ok(m) => m.is_dir,
            Err(_) => false,
        };
        if is_dir {
            return Err(BackendError::IsDirectory { path: normalized });
        }
        let end = start.saturating_add(len as u64);
        Ok(WritePlan { target: HostTarget { host, error_path: string_from_str(path) }, end })
    }

    /// The directory to create for `path`; nothing for the root, which
    /// exists already.
    pub fn create_dir(&self, path: &str, probe: &HostProbe) -> (r: Result<Option<HostTarget>>)
        requires
            probe_fits(*probe, path@),
        ensures
            optional_outcome(r) == create_dir_view(self.root_path(), path@, *probe),
    {
        let normalized = match normalize_path(path) {
            Ok(n) => n,
            Err(e) => return Err(e),
        };
        if normalized.as_str().is_empty() {
            return Ok(None);
        }
        match self.ensure_parent_dir(normalized.as_str(), probe) {
            Ok(_) => {},
            Err(e) => return Err(e),
        }
        let host = match self.resolve_host_path(normalized.as_str(), probe) {
            Ok(h) => h,
            Err(e) => return Err(e),
        };
        Ok(Some(HostTarget { host, error_path: string_from_str(path) }))
    }

    fn remove_target(&self, path: &str, probe: &HostProbe, refuse_root: bool) -> (r: Result<
        HostTarget,
    >)
        requires
            probe_fits(*probe, path@),
        ensures
            outcome(r) == remove_view(self.root_path(), path@, *probe, refuse_root),
    {
        let normalized = match normalize_path(path) {
            Ok(n) => n,
            Err(e) => return Err(e),
        };
        if refuse_root && normalized.as_str().is_empty() {
            return Err(BackendError::PermissionDenied { path: string_from_str(path) });
        }
        let host = match self.resolve_host_path(normalized.as_str(), probe) {
            Ok(h) => h,
            Err(e) => return Err(e),
        };
        Ok(HostTarget { host, error_path: string_from_str(path) })
    }

    /// The directory to remove for `path`; the root is never removed.
    pub fn remove_dir(&self, path: &str, probe: &HostProbe) -> (r: Result<HostTarget>)
        requires
            probe_fits(*probe, path@),
        ensures
            outcome(r) == remove_view(self.root_path(), path@, *probe, true),
    {
        self.remove_target(path, probe, true)
    }

    /// The file to remove for `path`.
    pub fn remove_file(&self, path: &str, probe: &HostProbe) -> (r: Result<HostTarget>)
        requires
            probe_fits(*probe, path@),
        ensures
            outcome(r) == remove_view(self.root_path(), path@, *probe, false),
    {
        self.remove_target(path, probe, false)
    }

    /// The shared checks of rename and copy.
    fn transfer(&self, from: &str, to: &str, from_probe: &HostProbe, to_probe: &HostProbe) -> (r:
        Result<(String, String, String, String)>)
        requires
            probe_fits(*from_probe, from@),
            probe_fits(*to_probe, to@),
        ensures
            match r {
                Ok((f, t, sh, dh)) => transfer_view(
                    self.root_path(),
                    from@,
                    to@,
                    *from_probe,
                    *to_probe,
                ) == Ok::<(Seq<char>, Seq<char>, Seq<char>, Seq<char>), ErrorView>((f@, t@, sh@, dh@))
                    && is_normalized(f@) && is_normalized(t@),
                Err(e) => transfer_view(self.root_path(), from@, to@, *from_probe, *to_probe)
                    == Err::<(Seq<char>, Seq<char>, Seq<char>, Seq<char>), ErrorView>(e@),
            },
    {
        let from_n = match normalize_path(from) {
            Ok(n) => n,
            Err(e) => return Err(e),
        };
        let to_n = match normalize_path(to) {
            Ok(n) => n,
            Err(e) => return Err(e),
        };
        if from_n.as_str().is_empty() || to_n.as_str().is_empty() {
            return Err(
                BackendError::PermissionDenied {
                    path: if from_n.as_str().is_empty() {
                        from_n
                    } else {
                        to_n
                    },
                },
            );
        }
        match self.ensure_parent_dir(to_n.as_str(), to_probe) {
            Ok(_) => {},
            Err(e) => return Err(e),
        }
        let source = match self.resolve_host_path(from_n.as_str(), from_probe) {
            Ok(h) => h,
            Err(e) => return Err(e),
        };
        let destination = match self.resolve_host_path(to_n.as_str(), to_probe) {
            Ok(h) => h,
            Err(e) => return Err(e),
        };
        Ok((from_n, to_n, source, destination))
    }

    /// How to move `from` to `to`.
    pub fn rename(&self, from: &str, to: &str, from_probe: &HostProbe, to_probe: &HostProbe) -> (r:
        Result<RenamePlan>)
        requires
            probe_fits(*from_probe, from@),
            probe_fits(*to_probe, to@),
        ensures
            outcome(r) == rename_view(self.root_path(), from@, to@, *from_probe, *to_probe),
    {
        let (from_n, to_n, source, destination) = match self.transfer(
            from,
            to,
            from_probe,
            to_probe,
        ) {
            Ok(t) => t,
            Err(e) => return Err(e),
        };
        let from_count = host_prefixes(self.root.as_str(), from_n.as_str()).len();
        let to_count = host_prefixes(self.root.as_str(), to_n.as_str()).len();
        let source_is_dir = match stat_of(from_probe, from_count) {
            Err(f) => return Err(map_io_error(copy_failure(f), from_n)),
            Ok(m) => m.is_dir,
        };
        let replace = match stat_of(to_probe, to_count) {
            Ok(dm) => {
                if source_is_dir || dm.is_dir {
                    return Err(BackendError::AlreadyExists { path: to_n });
                }
                true
            },
            Err(_) => false,
        };
        Ok(RenamePlan { source, destination, replace, error_path: from_n })
    }

    /// What to copy for `from` to `to`.
    pub fn copy(&self, from: &str, to: &str, from_probe: &HostProbe, to_probe: &HostProbe) -> (r:
        Result<CopyPlan>)
        requires
            probe_fits(*from_probe, from@),
            probe_fits(*to_probe, to@),
        ensures
            outcome(r) == copy_view(self.root_path(), from@, to@, *from_probe, *to_probe),
    {
        let (_from_n, _to_n, source, destination) = match self.transfer(
            from,
            to,
            from_probe,
            to_probe,
        ) {
            Ok(t) => t,
            Err(e) => return Err(e),
        };
        Ok(CopyPlan { source, destination })
    }
}

/// What a copy does with the node at host path `source`, given
/// `fs::metadata` of `source` and of `destination`.
pub fn copy_node(
    source: &str,
    destination: &str,
    source_stat: &std::result::Result<Metadata, IoFailure>,
    destination_stat: &std::result::Result<Metadata, IoFailure>,
) -> (r: Result<CopyNode>)
    ensures
        outcome(r) == copy_node_view(source@, destination@, *source_stat, *destination_stat),
{
    match source_stat {
        Err(f) => Err(map_io_error(copy_failure(f), string_from_str(source))),
        Ok(m) => {
            if m.is_dir {
                if destination_stat.is_ok() {
                    Err(BackendError::AlreadyExists { path: string_from_str(destination) })
                } else {
                    Ok(
                        CopyNode::Directory {
                            create_error_path: string_from_str(destination),
                            list_error_path: string_from_str(source),
                        },
                    )
                }
            } else {
                let dest_is_dir = match destination_stat {
                    Ok(d) => d.is_dir,
                    Err(_) => false,
                };
                if dest_is_dir {
                    Err(BackendError::AlreadyExists { path: string_from_str(destination) })
                } else {
                    Ok(CopyNode::File { error_path: string_from_str(destination) })
                }
            }
        },
    }
}

/// The host path of entry `name` inside host directory `base`, as
/// `Path::join` forms it for a plain name.
pub fn join_host(base: &str, name: &str) -> (r: String)
    ensures
        r@ == push_component(base@, name@),
{
    let mut v = chars_of(base);
    let tail = chars_of(name);
    if v.len() > 0 && v[v.len() - 1] != '/' {
        v.push('/');
    }
    crate::path::append_chars(&mut v, &tail);
    string_from_chars(&v)
}


/// A resolved host path is the normalized path pushed onto the root as one
/// relative component (the root itself for the empty path); it lies under
/// the root component by component, and none of its leading parts was
/// reported to be a symbolic link.
pub proof fn lemma_resolved_path_confined(root: Seq<char>, n: Seq<char>, probe: HostProbe)
    requires
        is_normalized(n),
        resolve_view(root, n, probe) is Ok,
    ensures
        resolve_view(root, n, probe)->Ok_0 == if n.len() == 0 {
            root
        } else {
            push_component(root, n)
        },
        under_root(resolve_view(root, n, probe)->Ok_0, root),
        !link_among(probe, path_segments(n).len() as int),
{
    lemma_host_path_within_root(root, path_segments(n));
    if n.len() > 0 {
        lemma_host_path_of_normalized(root, n);
    }
}

/// A write goes to the normalized request path pushed onto the root, never
/// to the root itself, under the root, through no symbolic link, into an
/// existing directory.
pub proof fn lemma_write_confined(
    root: Seq<char>,
    path: Seq<char>,
    start: u64,
    len: usize,
    probe: HostProbe,
)
    requires
        write_view(root, path, start, len, probe) is Ok,
    ensures
        ({
            let n = normalized_view(path)->0;
            let host = write_view(root, path, start, len, probe)->Ok_0.target.host;
            &&& normalized_view(path) is Some
            &&& n.len() > 0
            &&& host == push_component(root, n)
            &&& under_root(host, root)
            &&& !link_among(probe, path_segments(n).len() as int)
            &&& parent_host_view(root, n, probe) is Ok
        }),
{
    let n = normalized_view(path)->0;
    lemma_normalized_segments(path);
    lemma_resolved_path_confined(root, n, probe);
}

/// A rename or copy moves between normalized request paths pushed onto the
/// root, neither of them the root, both under the root and reached through
/// no symbolic link.
pub proof fn lemma_transfer_confined(
    root: Seq<char>,
    from: Seq<char>,
    to: Seq<char>,
    from_probe: HostProbe,
    to_probe: HostProbe,
)
    requires
        transfer_view(root, from, to, from_probe, to_probe) is Ok,
    ensures
        ({
            let (f, t, sh, dh) = transfer_view(root, from, to, from_probe, to_probe)->Ok_0;
            &&& normalized_view(from) == Some(f)
            &&& normalized_view(to) == Some(t)
            &&& f.len() > 0 && t.len() > 0
            &&& sh == push_component(root, f) && under_root(sh, root)
            &&& dh == push_component(root, t) && under_root(dh, root)
            &&& !link_among(from_probe, path_segments(f).len() as int)
            &&& !link_among(to_probe, path_segments(t).len() as int)
        }),
{
    let (f, t, sh, dh) = transfer_view(root, from, to, from_probe, to_probe)->Ok_0;
    lemma_normalized_segments(from);
    lemma_normalized_segments(to);
    lemma_resolved_path_confined(root, f, from_probe);
    lemma_resolved_path_confined(root, t, to_probe);
}

/// The plans of rename and copy are those of their shared checks.
pub proof fn lemma_rename_and_copy_confined(
    root: Seq<char>,
    from: Seq<char>,
    to: Seq<char>,
    from_probe: HostProbe,
    to_probe: HostProbe,
)
    ensures
        rename_view(root, from, to, from_probe, to_probe) matches Ok(p) ==> {
            let checked = transfer_view(root, from, to, from_probe, to_probe);
            &&& checked is Ok
            &&& p.source == checked->Ok_0.2
            &&& p.destination == checked->Ok_0.3
        },
        copy_view(root, from, to, from_probe, to_probe) matches Ok(p) ==> {
            let checked = transfer_view(root, from, to, from_probe, to_probe);
            &&& checked is Ok
            &&& p.source == checked->Ok_0.2
            &&& p.destination == checked->Ok_0.3
        },
{
}

/// The root itself is never written, removed as a directory, renamed,
/// copied or replaced; creating it is nothing to do.
pub proof fn lemma_root_protected(
    root: Seq<char>,
    path: Seq<char>,
    other: Seq<char>,
    start: u64,
    len: usize,
    probe: HostProbe,
    other_probe: HostProbe,
)
    requires
        normalized_view(path) == Some(Seq::<char>::empty()),
        normalized_view(other) is Some,
    ensures
        write_view(root, path, start, len, probe) == Err::<WritePlanView, ErrorView>(
            ErrorView::PermissionDenied { path },
        ),
        remove_view(root, path, probe, true) == Err::<TargetView, ErrorView>(
            ErrorView::PermissionDenied { path },
        ),
        create_dir_view(root, path, probe) == Ok::<Option<TargetView>, ErrorView>(None),
        rename_view(root, path, other, probe, other_probe) is Err,
        rename_view(root, other, path, other_probe, probe) is Err,
        copy_view(root, path, other, probe, other_probe) is Err,
        copy_view(root, other, path, other_probe, probe) is Err,
{
}

/// Every operation refuses a path with a `..` segment as an invalid path.
pub proof fn lemma_parent_refs_refused(
    root: Seq<char>,
    path: Seq<char>,
    other: Seq<char>,
    start: u64,
    len: usize,
    probe: HostProbe,
    other_probe: HostProbe,
)
    requires
        normalized_view(path) is None,
    ensures
        metadata_view(root, path, probe) == Err::<Metadata, ErrorView>(
            ErrorView::InvalidPath { path },
        ),
        existing_target_view(root, path, probe, true) == Err::<TargetView, ErrorView>(
            ErrorView::InvalidPath { path },
        ),
        existing_target_view(root, path, probe, false) == Err::<TargetView, ErrorView>(
            ErrorView::InvalidPath { path },
        ),
        write_view(root, path, start, len, probe) == Err::<WritePlanView, ErrorView>(
            ErrorView::InvalidPath { path },
        ),
        create_dir_view(root, path, probe) == Err::<Option<TargetView>, ErrorView>(
            ErrorView::InvalidPath { path },
        ),
        remove_view(root, path, probe, true) == Err::<TargetView, ErrorView>(
            ErrorView::InvalidPath { path },
        ),
        remove_view(root, path, probe, false) == Err::<TargetView, ErrorView>(
            ErrorView::InvalidPath { path },
        ),
        rename_view(root, path, other, probe, other_probe) == Err::<RenamePlanView, ErrorView>(
            ErrorView::InvalidPath { path },
        ),
        copy_view(root, path, other, probe, other_probe) == Err::<CopyPlanView, ErrorView>(
            ErrorView::InvalidPath { path },
        ),
{
}

/// A request path and its normalized form report the same metadata.
pub proof fn lemma_metadata_of_normalized(root: Seq<char>, path: Seq<char>, probe: HostProbe)
    requires
        normalized_view(path) is Some,
    ensures
        metadata_view(root, normalized_view(path)->0, probe) == metadata_view(root, path, probe),
{
    lemma_normalize_idempotent(path);
}

} // verus!
