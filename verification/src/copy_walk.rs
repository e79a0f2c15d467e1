//! The walk of a copy: which host entries are copied where, and in what
//! order. The caller visits each entry (deciding it with
//! [`copy_node`](crate::fs_backend::copy_node)), hands back the names that a
//! directory lists, and the walk goes on depth first, each entry in the order
//! listed, into the same relative place under the destination; the first
//! failure ends it.
use vstd::prelude::*;

use crate::error::{io_failure_view, map_io_error, BackendError, ErrorView, IoFailure};
use crate::fs_backend::{join_host, CopyPlan};
use crate::path::{host_path_of, push_component};

verus! {

/// One step of a copy.
pub enum CopyTask {
    /// Copy the host entry `source` to `destination`.
    Visit { source: String, destination: String },
    /// End the copy with `error`.
    Fail { error: BackendError },
}

pub enum CopyTaskView {
    Visit { source: Seq<char>, destination: Seq<char> },
    Fail { error: ErrorView },
}

impl View for CopyTask {
    type V = CopyTaskView;

    open spec fn view(&self) -> CopyTaskView {
        match self {
            CopyTask::Visit { source, destination } => CopyTaskView::Visit {
                source: source@,
                destination: destination@,
            },
            CopyTask::Fail { error } => CopyTaskView::Fail { error: error@ },
        }
    }
}

/// The views of the steps `steps`.
pub open spec fn task_views(steps: Seq<CopyTask>) -> Seq<CopyTaskView> {
    steps.map_values(|t: CopyTask| t@)
}

/// `source` and `destination` are the same relative place under
/// `source_root` and `destination_root`.
pub open spec fn mirrored(
    source_root: Seq<char>,
    destination_root: Seq<char>,
    source: Seq<char>,
    destination: Seq<char>,
) -> bool {
    exists|rel: Seq<Seq<char>>|
        #![trigger host_path_of(source_root, rel)]
        source == host_path_of(source_root, rel) && destination == host_path_of(
            destination_root,
            rel,
        )
}

/// The step that ends a copy whose listing of `source` failed with
/// `failure` partway through, if it did.
pub open spec fn failure_tasks(failure: Option<IoFailure>, source: Seq<char>) -> Seq<CopyTaskView> {
    match failure {
        Some(f) => seq![CopyTaskView::Fail { error: io_failure_view(f, source) }],
        None => Seq::empty(),
    }
}

/// The visits of the entries `names` of `source`, to the same names in
/// `destination`, last name first (so that the first name is taken first).
pub open spec fn child_visits(
    source: Seq<char>,
    destination: Seq<char>,
    names: Seq<Seq<char>>,
) -> Seq<CopyTaskView> {
    Seq::new(
        names.len(),
        |i: int|
            CopyTaskView::Visit {
                source: push_component(source, names[names.len() - 1 - i]),
                destination: push_component(destination, names[names.len() - 1 - i]),
            },
    )
}

/// The walk of one copy: the steps still to take (the next one last) and
/// the entry visited last.
pub struct CopyWalk {
    source_root: String,
    destination_root: String,
    pending: Vec<CopyTask>,
    current: Option<(String, String)>,
}

impl CopyWalk {
    /// The host path the copy starts from.
    pub closed spec fn source_root_path(&self) -> Seq<char> {
        self.source_root@
    }

    /// The host path the copy goes to.
    pub closed spec fn destination_root_path(&self) -> Seq<char> {
        self.destination_root@
    }

    /// The steps still to take; the next one is the last.
    pub closed spec fn pending_tasks(&self) -> Seq<CopyTaskView> {
        task_views(self.pending@)
    }

    /// The entry visited last and not yet descended into.
    pub closed spec fn current_node(&self) -> Option<(Seq<char>, Seq<char>)> {
        match self.current {
            Some((s, d)) => Some((s@, d@)),
            None => None,
        }
    }

    /// Every entry to visit, and the one being visited, goes to the same
    /// relative place under the destination as it has under the source.
    pub open spec fn wf(&self) -> bool {
        &&& forall|i: int|
            0 <= i < self.pending_tasks().len() ==> (#[trigger] self.pending_tasks()[i] matches CopyTaskView::Visit {
                source,
                destination,
            } ==> mirrored(
                self.source_root_path(),
                self.destination_root_path(),
                source,
                destination,
            ))
        &&& self.current_node() matches Some((s, d)) ==> mirrored(
            self.source_root_path(),
            self.destination_root_path(),
            s,
            d,
        )
    }

    #[verifier::type_invariant]
    spec fn walk_invariant(self) -> bool {
        self.wf()
    }

    /// The walk of `plan`: its one step is to visit the source.
    pub fn new(plan: &CopyPlan) -> (w: Self)
        ensures
            w.wf(),
            w.source_root_path() == plan.source@,
            w.destination_root_path() == plan.destination@,
            w.pending_tasks() == seq![
                CopyTaskView::Visit { source: plan.source@, destination: plan.destination@ },
            ],
            w.current_node() is None,
    {
        let mut pending: Vec<CopyTask> = Vec::new();
        pending.push(
            CopyTask::Visit { source: plan.source.clone(), destination: plan.destination.clone() },
        );
        proof {
            assert(task_views(pending@) =~= seq![
                CopyTaskView::Visit { source: plan.source@, destination: plan.destination@ },
            ]);
            let rel = Seq::<Seq<char>>::empty();
            assert(plan.source@ == host_path_of(plan.source@, rel));
            assert(plan.destination@ == host_path_of(plan.destination@, rel));
            assert(mirrored(plan.source@, plan.destination@, plan.source@, plan.destination@));
        }
        CopyWalk {
            source_root: plan.source.clone(),
            destination_root: plan.destination.clone(),
            pending,
            current: None,
        }
    }

    /// Takes the walk out of `self`, leaving an empty one.
    fn take_walk(&mut self) -> (w: CopyWalk)
        ensures
            w == *old(self),
    {
        let mut w = CopyWalk {
            source_root: String::new(),
            destination_root: String::new(),
            pending: Vec::new(),
            current: None,
        };
        std::mem::swap(self, &mut w);
        w
    }

    /// Takes the next step, if any is left. A visit becomes the current
    /// entry; a failure ends the walk, so that no step follows it.
    pub fn next_task(&mut self) -> (t: Option<CopyTask>)
        ensures
            final(self).wf(),
            final(self).source_root_path() == old(self).source_root_path(),
            final(self).destination_root_path() == old(self).destination_root_path(),
            old(self).pending_tasks().len() == 0 ==> t is None && final(self).pending_tasks()
                == old(self).pending_tasks() && final(self).current_node() == old(self).current_node(),
            old(self).pending_tasks().len() > 0 ==> t is Some && t->0@ == old(self).pending_tasks().last()
                && match old(self).pending_tasks().last() {
                CopyTaskView::Visit { source, destination } => final(self).pending_tasks()
                    == old(self).pending_tasks().drop_last() && final(self).current_node() == Some(
                    (source, destination),
                ) && mirrored(
                    old(self).source_root_path(),
                    old(self).destination_root_path(),
                    source,
                    destination,
                ),
                CopyTaskView::Fail { .. } => final(self).pending_tasks().len() == 0
                    && final(self).current_node() is None,
            },
    {
        proof {
            use_type_invariant(&*self);
        }
        let w = self.take_walk();
        let CopyWalk { source_root, destination_root, mut pending, current } = w;
        let ghost before = w.pending_tasks();
        let ghost sr = source_root@;
        let ghost dr = destination_root@;
        let mut current = current;
        let t = pending.pop();
        proof {
            if before.len() > 0 {
                assert(task_views(pending@) =~= before.drop_last());
                assert(before.last() == before[before.len() - 1]);
            } else {
                assert(task_views(pending@) =~= before);
            }
        }
        match &t {
            Some(CopyTask::Visit { source, destination }) => {
                current = Some((source.clone(), destination.clone()));
            },
            Some(CopyTask::Fail { .. }) => {
                pending.clear();
                current = None;
                assert(task_views(pending@) =~= Seq::<CopyTaskView>::empty());
            },
            None => {},
        }
        let ghost after = task_views(pending@);
        proof {
            assert forall|i: int| 0 <= i < after.len() implies (#[trigger] after[i] matches CopyTaskView::Visit {
                source,
                destination,
            } ==> mirrored(sr, dr, source, destination)) by {
                assert(after[i] == before[i]);
            }
        }
        *self = CopyWalk { source_root, destination_root, pending, current };
        t
    }

    /// Ends the walk on a failed host call, reporting `error`: no step
    /// follows.
    pub fn fail(&mut self, error: BackendError) -> (r: BackendError)
        ensures
            final(self).wf(),
            r@ == error@,
            final(self).pending_tasks().len() == 0,
            final(self).current_node() is None,
            final(self).source_root_path() == old(self).source_root_path(),
            final(self).destination_root_path() == old(self).destination_root_path(),
    {
        let w = self.take_walk();
        let CopyWalk { source_root, destination_root, pending: _, current: _ } = w;
        let pending: Vec<CopyTask> = Vec::new();
        assert(task_views(pending@) =~= Seq::<CopyTaskView>::empty());
        *self = CopyWalk { source_root, destination_root, pending, current: None };
        error
    }

    /// Goes into the current entry, a directory whose listing gave `names`
    /// and then, where `failure` is given, failed: its entries are visited
    /// next, in the order listed, each copied to the same name in the
    /// destination directory, and then the failure ends the copy. Nothing
    /// changes where no entry is current.
    pub fn descend(&mut self, names: &Vec<String>, failure: Option<IoFailure>)
        ensures
            final(self).wf(),
            final(self).source_root_path() == old(self).source_root_path(),
            final(self).destination_root_path() == old(self).destination_root_path(),
            final(self).current_node() is None,
            match old(self).current_node() {
                None => final(self).pending_tasks() == old(self).pending_tasks(),
                Some((s, d)) => final(self).pending_tasks() == old(self).pending_tasks()
                    + failure_tasks(failure, s) + child_visits(
                    s,
                    d,
                    names@.map_values(|n: String| n@),
                ),
            },
            old(self).current_node() matches Some((s, d)) ==> ({
                let before = old(self).pending_tasks();
                let after = final(self).pending_tasks();
                &&& after.len() == before.len() + (if failure is Some {
                    1int
                } else {
                    0int
                }) + names.len()
                &&& after.take(before.len() as int) == before
                &&& failure matches Some(f) ==> after[before.len() as int] == (CopyTaskView::Fail {
                    error: io_failure_view(f, s),
                })
                &&& forall|k: int|
                    0 <= k < names.len() ==> after[after.len() - 1 - k] == (CopyTaskView::Visit {
                        source: push_component(s, (#[trigger] names@[k])@),
                        destination: push_component(d, names@[k]@),
                    })
            }),
    {
        proof {
            use_type_invariant(&*self);
        }
        let w = self.take_walk();
        let ghost start = w.pending_tasks();
        let ghost sr = w.source_root_path();
        let ghost dr = w.destination_root_path();
        let CopyWalk { source_root, destination_root, mut pending, current } = w;
        let (source, destination) = match current {
            Some((s, d)) => (s, d),
            None => {
                *self = CopyWalk { source_root, destination_root, pending, current: None };
                return ;
            },
        };
        let ghost rel = choose|rel: Seq<Seq<char>>|
            #![trigger host_path_of(sr, rel)]
            source@ == host_path_of(sr, rel) && destination@ == host_path_of(dr, rel);
        if let Some(f) = failure {
            pending.push(CopyTask::Fail { error: map_io_error(f, source.clone()) });
        }
        let ghost base = task_views(pending@);
        proof {
            assert(base =~= start + failure_tasks(failure, source@));
        }
        let ghost name_views = names@.map_values(|n: String| n@);
        let ghost all = child_visits(source@, destination@, name_views);
        let mut j: usize = names.len();
        assert(all.take(0) =~= Seq::<CopyTaskView>::empty());
        assert(task_views(pending@) =~= base + all.take(0));
        while j > 0
            invariant
                j <= names.len(),
                name_views == names@.map_values(|n: String| n@),
                all == child_visits(source@, destination@, name_views),
                task_views(pending@) == base + all.take(names.len() - j),
                source@ == host_path_of(sr, rel),
                destination@ == host_path_of(dr, rel),
                forall|i: int|
                    0 <= i < pending@.len() ==> (
                    #[trigger] task_views(pending@)[i] matches CopyTaskView::Visit {
                        source,
                        destination,
                    } ==> mirrored(sr, dr, source, destination)),
            decreases j,
        {
            j = j - 1;
            let child_source = join_host(source.as_str(), names[j].as_str());
            let child_destination = join_host(destination.as_str(), names[j].as_str());
            let ghost before = task_views(pending@);
            let task = CopyTask::Visit { source: child_source, destination: child_destination };
            let ghost tv = task@;
            pending.push(task);
            proof {
                let now = task_views(pending@);
                assert(now =~= before.push(tv));
                let k = names.len() - 1 - j;
                assert(all[k] == tv);
                assert(all.take(k + 1) =~= all.take(k).push(tv));
                let crel = rel.push(names@[j as int]@);
                assert(crel.drop_last() =~= rel);
                assert(host_path_of(sr, crel) == push_component(source@, names@[j as int]@));
                assert(host_path_of(dr, crel) == push_component(destination@, names@[j as int]@));
                assert forall|i: int| 0 <= i < pending@.len() implies (
                #[trigger] task_views(pending@)[i] matches CopyTaskView::Visit {
                    source,
                    destination,
                } ==> mirrored(sr, dr, source, destination)) by {
                    if i < before.len() {
                        assert(now[i] == before[i]);
                    }
                }
            }
        }
        assert(all.take(names.len() as int) =~= all);
        proof {
            let after = task_views(pending@);
            assert(after.take(start.len() as int) =~= start);
            if failure is Some {
                assert(after[start.len() as int] == base[start.len() as int]);
            }
            assert forall|k: int| 0 <= k < names.len() implies after[after.len() - 1 - k] == (
            CopyTaskView::Visit {
                source: push_component(source@, (#[trigger] names@[k])@),
                destination: push_component(destination@, names@[k]@),
            }) by {
                lemma_entries_come_next(start, failure, source@, destination@, name_views, k);
            }
        }
        *self = CopyWalk { source_root, destination_root, pending, current: None };
    }
}

/// After going into a directory, the next steps visit its entries in the
/// order listed, each to the same name under the destination directory.
pub proof fn lemma_entries_come_next(
    before: Seq<CopyTaskView>,
    failure: Option<IoFailure>,
    source: Seq<char>,
    destination: Seq<char>,
    names: Seq<Seq<char>>,
    k: int,
)
    requires
        0 <= k < names.len(),
    ensures
        ({
            let after = before + failure_tasks(failure, source) + child_visits(
                source,
                destination,
                names,
            );
            after[after.len() - 1 - k] == CopyTaskView::Visit {
                source: push_component(source, names[k]),
                destination: push_component(destination, names[k]),
            }
        }),
{
    let front = before + failure_tasks(failure, source);
    let after = front + child_visits(source, destination, names);
    assert(after[after.len() - 1 - k] == child_visits(source, destination, names)[names.len()
        - 1 - k]);
}

/// Every entry a copy walk visits goes to the same relative place under the
/// destination as it has under the source.
pub proof fn lemma_walk_mirrors(w: CopyWalk, i: int)
    requires
        w.wf(),
        0 <= i < w.pending_tasks().len(),
        w.pending_tasks()[i] is Visit,
    ensures
        mirrored(
            w.source_root_path(),
            w.destination_root_path(),
            w.pending_tasks()[i]->Visit_source,
            w.pending_tasks()[i]->Visit_destination,
        ),
{
}

} // verus!
