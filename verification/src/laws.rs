//! What each backend operation does, stated over all requests and host
//! reports: the served entry of a request path, the outcome for each kind of
//! report, and which reports cannot change an outcome.
use vstd::prelude::*;

use crate::error::{io_failure_view, ErrorView, IoFailure};
use crate::fs_backend::{
    copy_node_view, copy_view, create_dir_view, existing_target_view, link_among, link_stat_at,
    metadata_view, parent_host_view, remove_view, rename_view, resolve_view, stat_at,
    transfer_view, write_view, CopyNodeView, CopyPlanView, HostProbe, RenamePlanView, TargetView,
    WritePlanView,
};
use crate::metadata::Metadata;
use crate::path::{
    is_normalized, lemma_host_path_of_normalized, lemma_normalized_segments,
    lemma_parent_of_normalized, lemma_split_len, normalized_view, parent_view, path_segments,
    push_component,
};

verus! {

/// The host entry that normalized path `n` names under `root`: the root
/// itself for the empty path, else `n` pushed onto the root.
pub open spec fn served_path(root: Seq<char>, n: Seq<char>) -> Seq<char> {
    if n.len() == 0 {
        root
    } else {
        push_component(root, n)
    }
}

/// The number of leading parts of normalized `n` that a probe reports on.
pub open spec fn depth(n: Seq<char>) -> int {
    path_segments(n).len() as int
}

/// A normalized path resolves to its served entry unless a leading part is
/// a symbolic link, which refuses it as an invalid path.
pub proof fn law_resolution(root: Seq<char>, n: Seq<char>, probe: HostProbe)
    requires
        is_normalized(n),
    ensures
        link_among(probe, depth(n)) ==> resolve_view(root, n, probe) == Err::<Seq<char>, ErrorView>(
            ErrorView::InvalidPath { path: n },
        ),
        !link_among(probe, depth(n)) ==> resolve_view(root, n, probe) == Ok::<
            Seq<char>,
            ErrorView,
        >(served_path(root, n)),
{
    if n.len() > 0 {
        lemma_split_len(n);
        lemma_host_path_of_normalized(root, n);
    }
}

/// Metadata reports exactly what the host reported for the entry, links not
/// followed, every field (times and permissions too) unchanged; a failed
/// report is the error on the normalized path.
pub proof fn law_metadata_reports_the_host(
    root: Seq<char>,
    path: Seq<char>,
    n: Seq<char>,
    probe: HostProbe,
)
    requires
        normalized_view(path) == Some(n),
        !link_among(probe, depth(n)),
    ensures
        link_stat_at(probe, depth(n)) matches Ok(m) ==> metadata_view(root, path, probe) == Ok::<
            Metadata,
            ErrorView,
        >(m),
        link_stat_at(probe, depth(n)) matches Err(f) ==> metadata_view(root, path, probe) == Err::<
            Metadata,
            ErrorView,
        >(io_failure_view(f, n)),
{
    lemma_normalized_segments(path);
    law_resolution(root, n, probe);
}

/// A request through a symbolic link is refused as an invalid path by every
/// operation on an existing entry.
pub proof fn law_links_refused(root: Seq<char>, path: Seq<char>, n: Seq<char>, probe: HostProbe)
    requires
        normalized_view(path) == Some(n),
        link_among(probe, depth(n)),
    ensures
        metadata_view(root, path, probe) == Err::<Metadata, ErrorView>(
            ErrorView::InvalidPath { path: n },
        ),
        existing_target_view(root, path, probe, true) == Err::<TargetView, ErrorView>(
            ErrorView::InvalidPath { path: n },
        ),
        existing_target_view(root, path, probe, false) == Err::<TargetView, ErrorView>(
            ErrorView::InvalidPath { path: n },
        ),
        remove_view(root, path, probe, false) == Err::<TargetView, ErrorView>(
            ErrorView::InvalidPath { path: n },
        ),
        remove_view(root, path, probe, true) == Err::<TargetView, ErrorView>(
            ErrorView::InvalidPath { path: n },
        ),
{
    lemma_normalized_segments(path);
    law_resolution(root, n, probe);
}

/// Listing, reading and truncating act on an existing entry of the right
/// kind (a directory to list, anything else to read or truncate), the root
/// included; an entry of the other kind, or a failed report, is refused.
pub proof fn law_existing_entry(
    root: Seq<char>,
    path: Seq<char>,
    n: Seq<char>,
    probe: HostProbe,
    want_dir: bool,
)
    requires
        normalized_view(path) == Some(n),
        !link_among(probe, depth(n)),
    ensures
        stat_at(probe, depth(n)) matches Ok(m) && m.is_dir == want_dir ==> existing_target_view(
            root,
            path,
            probe,
            want_dir,
        ) == Ok::<TargetView, ErrorView>(
            TargetView { host: served_path(root, n), error_path: path },
        ),
        stat_at(probe, depth(n)) matches Ok(m) && m.is_dir && !want_dir ==> existing_target_view(
            root,
            path,
            probe,
            want_dir,
        ) == Err::<TargetView, ErrorView>(ErrorView::IsDirectory { path: n }),
        stat_at(probe, depth(n)) matches Ok(m) && !m.is_dir && want_dir ==> existing_target_view(
            root,
            path,
            probe,
            want_dir,
        ) == Err::<TargetView, ErrorView>(ErrorView::NotDirectory { path: n }),
        stat_at(probe, depth(n)) matches Err(f) ==> existing_target_view(
            root,
            path,
            probe,
            want_dir,
        ) == Err::<TargetView, ErrorView>(io_failure_view(f, n)),
{
    lemma_normalized_segments(path);
    law_resolution(root, n, probe);
}

/// The root, when it is a directory, can be listed.
pub proof fn law_root_is_listed(root: Seq<char>, path: Seq<char>, probe: HostProbe)
    requires
        normalized_view(path) == Some(Seq::<char>::empty()),
        probe.root_stat matches Ok(m) && m.is_dir,
    ensures
        existing_target_view(root, path, probe, true) == Ok::<TargetView, ErrorView>(
            TargetView { host: root, error_path: path },
        ),
{
    law_existing_entry(root, path, Seq::<char>::empty(), probe, true);
}

/// The directory that is to hold a non-root normalized path is its parent,
/// which must resolve, exist and be a directory; its failures name the
/// parent.
pub proof fn law_parent_directory(root: Seq<char>, n: Seq<char>, probe: HostProbe)
    requires
        is_normalized(n),
        n.len() > 0,
    ensures
        ({
            let p = parent_view(n)->0;
            &&& link_among(probe, depth(p)) ==> parent_host_view(root, n, probe) == Err::<
                Seq<char>,
                ErrorView,
            >(ErrorView::InvalidPath { path: p })
            &&& !link_among(probe, depth(p)) ==> match stat_at(probe, depth(p)) {
                Err(f) => parent_host_view(root, n, probe) == Err::<Seq<char>, ErrorView>(
                    io_failure_view(f, p),
                ),
                Ok(m) => parent_host_view(root, n, probe) == if m.is_dir {
                    Ok::<Seq<char>, ErrorView>(served_path(root, p))
                } else {
                    Err(ErrorView::NotDirectory { path: p })
                },
            }
        }),
{
    lemma_parent_of_normalized(n);
    let p = parent_view(n)->0;
    law_resolution(root, p, probe);
}

/// A write goes to the served entry of a non-root path: the root is
/// refused; a parent that is not a directory, a symbolic link in the way, or
/// an existing directory at the path is refused; a missing entry is no
/// obstacle (it is created).
pub proof fn law_write_target(
    root: Seq<char>,
    path: Seq<char>,
    n: Seq<char>,
    start: u64,
    len: usize,
    probe: HostProbe,
)
    requires
        normalized_view(path) == Some(n),
    ensures
        n.len() == 0 ==> write_view(root, path, start, len, probe) == Err::<WritePlanView, ErrorView>(
            ErrorView::PermissionDenied { path },
        ),
        n.len() > 0 ==> (parent_host_view(root, n, probe) matches Err(e) ==> write_view(
            root,
            path,
            start,
            len,
            probe,
        ) == Err::<WritePlanView, ErrorView>(e)),
        (n.len() > 0 && parent_host_view(root, n, probe) is Ok && link_among(probe, depth(n)))
            ==> write_view(root, path, start, len, probe) == Err::<WritePlanView, ErrorView>(
            ErrorView::InvalidPath { path: n },
        ),
        (n.len() > 0 && parent_host_view(root, n, probe) is Ok && !link_among(probe, depth(n)) && (
        stat_at(probe, depth(n)) matches Ok(m) && m.is_dir)) ==> write_view(
            root,
            path,
            start,
            len,
            probe,
        ) == Err::<WritePlanView, ErrorView>(ErrorView::IsDirectory { path: n }),
        (n.len() > 0 && parent_host_view(root, n, probe) is Ok && !link_among(probe, depth(n)) && !(
        stat_at(probe, depth(n)) matches Ok(m) && m.is_dir)) ==> write_view(
            root,
            path,
            start,
            len,
            probe,
        ) is Ok && write_view(root, path, start, len, probe)->Ok_0.target == (TargetView {
            host: push_component(root, n),
            error_path: path,
        }),
{
    lemma_normalized_segments(path);
    law_resolution(root, n, probe);
}

/// A write reports as its end the start plus the bytes written, or the
/// largest offset where that does not fit.
pub proof fn law_write_end(root: Seq<char>, path: Seq<char>, start: u64, len: usize, probe: HostProbe)
    requires
        (write_view(root, path, start, len, probe) is Ok),
    ensures
        ({
            let end = write_view(root, path, start, len, probe)->Ok_0.end;
            &&& start + len <= u64::MAX ==> end == start + len
            &&& start + len > u64::MAX ==> end == u64::MAX
        }),
{
}

/// Creating a directory is nothing to do exactly for the root; otherwise,
/// once the parent is a directory and no symbolic link is in the way, the
/// served entry is created, whatever the host reports of it now (an
/// existing entry makes the host call fail).
pub proof fn law_create_dir(root: Seq<char>, path: Seq<char>, n: Seq<char>, probe: HostProbe)
    requires
        normalized_view(path) == Some(n),
    ensures
        (create_dir_view(root, path, probe) == Ok::<Option<TargetView>, ErrorView>(None)) <==> n.len()
            == 0,
        n.len() > 0 && parent_host_view(root, n, probe) is Ok && !link_among(probe, depth(n))
            ==> create_dir_view(root, path, probe) == Ok::<Option<TargetView>, ErrorView>(
            Some(TargetView { host: push_component(root, n), error_path: path }),
        ),
        n.len() > 0 ==> (parent_host_view(root, n, probe) matches Err(e) ==> create_dir_view(
            root,
            path,
            probe,
        ) == Err::<Option<TargetView>, ErrorView>(e)),
        (n.len() > 0 && parent_host_view(root, n, probe) is Ok && link_among(probe, depth(n)))
            ==> create_dir_view(root, path, probe) == Err::<Option<TargetView>, ErrorView>(
            ErrorView::InvalidPath { path: n },
        ),
{
    lemma_normalized_segments(path);
    law_resolution(root, n, probe);
}

/// Removing acts on the served entry whatever the host reports of it; only
/// the root as a directory is refused.
pub proof fn law_remove(
    root: Seq<char>,
    path: Seq<char>,
    n: Seq<char>,
    probe: HostProbe,
    refuse_root: bool,
)
    requires
        normalized_view(path) == Some(n),
        !link_among(probe, depth(n)),
    ensures
        refuse_root && n.len() == 0 ==> remove_view(root, path, probe, refuse_root) == Err::<
            TargetView,
            ErrorView,
        >(ErrorView::PermissionDenied { path }),
        !(refuse_root && n.len() == 0) ==> remove_view(root, path, probe, refuse_root) == Ok::<
            TargetView,
            ErrorView,
        >(TargetView { host: served_path(root, n), error_path: path }),
{
    lemma_normalized_segments(path);
    law_resolution(root, n, probe);
}

/// Rename and copy accept two non-root paths, the destination's parent a
/// directory, neither reached through a symbolic link, and then act on
/// their served entries; the root, a failing parent and a symbolic link are
/// refused, in that order.
pub proof fn law_transfer(
    root: Seq<char>,
    from: Seq<char>,
    to: Seq<char>,
    f: Seq<char>,
    t: Seq<char>,
    from_probe: HostProbe,
    to_probe: HostProbe,
)
    requires
        normalized_view(from) == Some(f),
        normalized_view(to) == Some(t),
    ensures
        f.len() == 0 || t.len() == 0 ==> transfer_view(root, from, to, from_probe, to_probe)
            == Err::<(Seq<char>, Seq<char>, Seq<char>, Seq<char>), ErrorView>(
            ErrorView::PermissionDenied { path: Seq::empty() },
        ),
        f.len() > 0 && t.len() > 0 && parent_host_view(root, t, to_probe) is Ok && !link_among(
            from_probe,
            depth(f),
        ) && !link_among(to_probe, depth(t)) ==> transfer_view(
            root,
            from,
            to,
            from_probe,
            to_probe,
        ) == Ok::<(Seq<char>, Seq<char>, Seq<char>, Seq<char>), ErrorView>(
            (f, t, push_component(root, f), push_component(root, t)),
        ),
        (f.len() > 0 && t.len() > 0) ==> (parent_host_view(root, t, to_probe) matches Err(e)
            ==> transfer_view(root, from, to, from_probe, to_probe) == Err::<
            (Seq<char>, Seq<char>, Seq<char>, Seq<char>),
            ErrorView,
        >(e)),
        (f.len() > 0 && t.len() > 0 && parent_host_view(root, t, to_probe) is Ok && link_among(
            from_probe,
            depth(f),
        )) ==> transfer_view(root, from, to, from_probe, to_probe) == Err::<
            (Seq<char>, Seq<char>, Seq<char>, Seq<char>),
            ErrorView,
        >(ErrorView::InvalidPath { path: f }),
        (f.len() > 0 && t.len() > 0 && parent_host_view(root, t, to_probe) is Ok && !link_among(
            from_probe,
            depth(f),
        ) && link_among(to_probe, depth(t))) ==> transfer_view(root, from, to, from_probe, to_probe)
            == Err::<(Seq<char>, Seq<char>, Seq<char>, Seq<char>), ErrorView>(
            ErrorView::InvalidPath { path: t },
        ),
{
    lemma_normalized_segments(from);
    lemma_normalized_segments(to);
    law_resolution(root, f, from_probe);
    law_resolution(root, t, to_probe);
}

/// A rename whose paths pass the shared checks moves any readable source,
/// file or directory, to an absent destination without replacing anything;
/// an existing destination is replaced exactly when neither it nor the
/// source is a directory, and is otherwise refused as already existing.
pub proof fn law_rename(
    root: Seq<char>,
    from: Seq<char>,
    to: Seq<char>,
    from_probe: HostProbe,
    to_probe: HostProbe,
)
    requires
        (transfer_view(root, from, to, from_probe, to_probe) is Ok),
    ensures
        ({
            let (f, t, sh, dh) = transfer_view(root, from, to, from_probe, to_probe)->Ok_0;
            let r = rename_view(root, from, to, from_probe, to_probe);
            &&& stat_at(from_probe, depth(f)) matches Err(e) ==> r == Err::<
                RenamePlanView,
                ErrorView,
            >(io_failure_view(e, f))
            &&& stat_at(from_probe, depth(f)) is Ok && stat_at(to_probe, depth(t)) is Err ==> r
                == Ok::<RenamePlanView, ErrorView>(
                RenamePlanView { source: sh, destination: dh, replace: false, error_path: f },
            )
            &&& (stat_at(from_probe, depth(f)) matches Ok(sm) && stat_at(to_probe, depth(t)) matches Ok(
                dm,
            ) && !sm.is_dir && !dm.is_dir) ==> r == Ok::<RenamePlanView, ErrorView>(
                RenamePlanView { source: sh, destination: dh, replace: true, error_path: f },
            )
            &&& (stat_at(from_probe, depth(f)) matches Ok(sm) && stat_at(to_probe, depth(t)) matches Ok(
                dm,
            ) && (sm.is_dir || dm.is_dir)) ==> r == Err::<RenamePlanView, ErrorView>(
                ErrorView::AlreadyExists { path: t },
            )
        }),
{
}

/// A rename replaces exactly when the host reported the destination as
/// existing.
pub proof fn law_rename_replaces_existing(
    root: Seq<char>,
    from: Seq<char>,
    to: Seq<char>,
    from_probe: HostProbe,
    to_probe: HostProbe,
)
    requires
        (rename_view(root, from, to, from_probe, to_probe) is Ok),
    ensures
        (transfer_view(root, from, to, from_probe, to_probe) is Ok),
        rename_view(root, from, to, from_probe, to_probe)->Ok_0.replace == (stat_at(
            to_probe,
            depth(transfer_view(root, from, to, from_probe, to_probe)->Ok_0.1),
        ) is Ok),
{
}

/// A copy whose paths pass the shared checks copies between their served
/// entries; otherwise it fails as the checks do.
pub proof fn law_copy(
    root: Seq<char>,
    from: Seq<char>,
    to: Seq<char>,
    from_probe: HostProbe,
    to_probe: HostProbe,
)
    ensures
        transfer_view(root, from, to, from_probe, to_probe) matches Ok((f, t, sh, dh)) ==> copy_view(
            root,
            from,
            to,
            from_probe,
            to_probe,
        ) == Ok::<CopyPlanView, ErrorView>(CopyPlanView { source: sh, destination: dh }),
        transfer_view(root, from, to, from_probe, to_probe) matches Err(e) ==> copy_view(
            root,
            from,
            to,
            from_probe,
            to_probe,
        ) == Err::<CopyPlanView, ErrorView>(e),
{
}

/// One node of a copy: an unreadable source fails on the source; a file
/// goes to an absent destination or over an existing file, and is refused
/// only over a directory; a directory is copied only to an absent
/// destination.
pub proof fn law_copy_node(
    source: Seq<char>,
    destination: Seq<char>,
    source_stat: std::result::Result<Metadata, IoFailure>,
    destination_stat: std::result::Result<Metadata, IoFailure>,
)
    ensures
        source_stat matches Err(f) ==> copy_node_view(
            source,
            destination,
            source_stat,
            destination_stat,
        ) == Err::<CopyNodeView, ErrorView>(io_failure_view(f, source)),
        source_stat matches Ok(m) && !m.is_dir && !(destination_stat matches Ok(d) && d.is_dir)
            ==> copy_node_view(source, destination, source_stat, destination_stat) == Ok::<
            CopyNodeView,
            ErrorView,
        >(CopyNodeView::File { error_path: destination }),
        source_stat matches Ok(m) && !m.is_dir && (destination_stat matches Ok(d) && d.is_dir)
            ==> copy_node_view(source, destination, source_stat, destination_stat) == Err::<
            CopyNodeView,
            ErrorView,
        >(ErrorView::AlreadyExists { path: destination }),
        source_stat matches Ok(m) && m.is_dir && destination_stat is Err ==> copy_node_view(
            source,
            destination,
            source_stat,
            destination_stat,
        ) == Ok::<CopyNodeView, ErrorView>(
            CopyNodeView::Directory { create_error_path: destination, list_error_path: source },
        ),
        source_stat matches Ok(m) && m.is_dir && destination_stat is Ok ==> copy_node_view(
            source,
            destination,
            source_stat,
            destination_stat,
        ) == Err::<CopyNodeView, ErrorView>(ErrorView::AlreadyExists { path: destination }),
{
}

} // verus!
