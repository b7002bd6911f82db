//! Batch execution: every job of a batch runs to completion, its failures
//! isolated from its siblings, and the batch yields exactly one outcome per
//! job.
//!
//! Against the in-memory model the jobs run in submission order whatever
//! worker count is configured: the worker pool itself belongs to the
//! interpreter at the I/O boundary, which drives the same per-job state
//! machine. The contracts here are what that equivalence rests on: the
//! outcome vector's length and per-job correspondence do not depend on the
//! configuration.

use vstd::prelude::*;

use crate::error::ActionError;
use crate::file_actions::{suffix_outcome, FileAction, FileActionContext, FileActionType};
use crate::fs_model::{FileTime, FsModel};
use crate::report::Report;

verus! {

/// How a batch is scheduled: a worker count below two selects strictly
/// sequential execution; a higher count sizes the worker pool.
pub struct RunnerConfig {
    pub num_threads: usize,
}

impl RunnerConfig {
    pub fn new(num_threads: usize) -> (r: Self)
        ensures
            r.num_threads == num_threads,
    {
        Self { num_threads }
    }
}

/// Whether no job of the batch may replace an existing file.
pub open spec fn all_nondestructive(actions: Seq<FileAction>) -> bool {
    forall|i: int| 0 <= i < actions.len() ==> !(#[trigger] actions[i]).destructive()
}

/// Run every job in submission order against the modelled filesystem:
/// exactly one outcome per job, in order; one job's failure never affects
/// its siblings. A batch of jobs that may not overwrite neither loses nor
/// duplicates a file: the number of files is preserved.
pub fn run_singlethreaded(actions: Vec<FileAction>, fs: &mut FsModel) -> (r: Vec<
    Result<Report, ActionError>,
>)
    requires
        old(fs).wf(),
    ensures
        final(fs).wf(),
        r@.len() == actions@.len(),
        forall|i: int|
            0 <= i < r@.len() ==> match #[trigger] r@[i] {
                Ok(rep) => (rep matches Report::Renamed { from, to, overwrote } && from@
                    == actions@[i].target@),
                Err(_) => true,
            },
        all_nondestructive(actions@) ==> final(fs)@.dom().len() == old(fs)@.dom().len(),
        batch_rel(actions@, old(fs)@, outcome_views(r@), final(fs)@),
{
    let ghost acts0 = actions@;
    let ctx = FileActionContext::new();
    let mut actions = actions;
    let mut results: Vec<Result<Report, ActionError>> = Vec::new();
    proof {
        assert(actions@ =~= acts0.subrange(0, acts0.len() as int));
        assert(acts0.subrange(0, 0) =~= Seq::<FileAction>::empty());
        assert(outcome_views(results@) =~= Seq::<OutcomeView>::empty());
    }
    #[verifier::loop_isolation(false)]
    while actions.len() > 0
        invariant
            fs.wf(),
            results@.len() + actions@.len() == acts0.len(),
            actions@ == acts0.subrange(results@.len() as int, acts0.len() as int),
            forall|i: int|
                0 <= i < results@.len() ==> match #[trigger] results@[i] {
                    Ok(rep) => (rep matches Report::Renamed { from, to, overwrote } && from@
                        == acts0[i].target@),
                    Err(_) => true,
                },
            all_nondestructive(acts0) ==> fs@.dom().len() == old(fs)@.dom().len(),
            batch_rel(
                acts0.subrange(0, results@.len() as int),
                old(fs)@,
                outcome_views(results@),
                fs@,
            ),
        decreases actions@.len(),
    {
        let ghost fs_pre = fs@;
        let ghost k = results@.len() as int;
        let a = actions.remove(0);
        proof {
            assert(a == acts0[k]);
            fs.lemma_dom_finite();
        }
        let res = a.run(&ctx, fs);
        proof {
            if all_nondestructive(acts0) {
                assert(!acts0[k].destructive());
                if res is Ok {
                    let rep = res->Ok_0;
                    match rep {
                        Report::Renamed { from, to, overwrote } => {
                            assert(fs_pre.contains_key(from@));
                            assert(!fs_pre.contains_key(to@));
                            assert(fs@.dom() =~= fs_pre.dom().remove(from@).insert(to@));
                            vstd::set::axiom_set_remove_len(fs_pre.dom(), from@);
                            vstd::set::axiom_set_insert_len(fs_pre.dom().remove(from@), to@);
                        },
                        Report::Nothing => {},
                    }
                }
            }
        }
        let ghost views_pre = outcome_views(results@);
        results.push(res);
        proof {
            assert(actions@ =~= acts0.subrange(results@.len() as int, acts0.len() as int));
            assert(job_rel(acts0[k], fs_pre, outcome_view(res), fs@));
            lemma_batch_rel_push(
                acts0.subrange(0, k),
                old(fs)@,
                views_pre,
                fs_pre,
                acts0[k],
                outcome_view(res),
                fs@,
            );
            assert(acts0.subrange(0, k).push(acts0[k]) =~= acts0.subrange(0, k + 1));
            assert(outcome_views(results@) =~= views_pre.push(outcome_view(res)));
        }
    }
    proof {
        assert(acts0.subrange(0, acts0.len() as int) =~= acts0);
    }
    results
}

/// Execute a batch of jobs and return one outcome per job. A worker count
/// below two selects strictly sequential execution; against the in-memory
/// model a larger pool changes nothing, as the contract states: the
/// outcomes do not depend on the configuration.
pub fn run_actions(actions: Vec<FileAction>, config: RunnerConfig, fs: &mut FsModel) -> (r: Vec<
    Result<Report, ActionError>,
>)
    requires
        old(fs).wf(),
    ensures
        final(fs).wf(),
        r@.len() == actions@.len(),
        forall|i: int|
            0 <= i < r@.len() ==> match #[trigger] r@[i] {
                Ok(rep) => (rep matches Report::Renamed { from, to, overwrote } && from@
                    == actions@[i].target@),
                Err(_) => true,
            },
        all_nondestructive(actions@) ==> final(fs)@.dom().len() == old(fs)@.dom().len(),
        batch_rel(actions@, old(fs)@, outcome_views(r@), final(fs)@),
{
    let _threads = config.num_threads;
    run_singlethreaded(actions, fs)
}

/// The suffix policy is deterministic: for one starting candidate and one
/// filesystem state there is exactly one destination it can choose. With the
/// overwrite policy's destination fixed syntactically, a rename job's
/// destination is a function of the job and the filesystem alone — the core
/// of sequential/parallel equivalence, once random draws are set aside.
pub proof fn lemma_suffix_outcome_unique(
    n: Seq<char>,
    fs0: Map<Seq<char>, crate::fs_model::FileTime>,
    t1: Seq<char>,
    t2: Seq<char>,
)
    requires
        suffix_outcome(n, fs0, t1),
        suffix_outcome(n, fs0, t2),
    ensures
        t1 == t2,
{
    let k1 = choose|k: nat|
        t1 == crate::file_actions::nth_candidate(n, k) && !fs0.contains_key(
            crate::file_actions::nth_candidate(n, k),
        ) && (forall|j: nat| j < k ==> fs0.contains_key(crate::file_actions::nth_candidate(n, j)));
    let k2 = choose|k: nat|
        t2 == crate::file_actions::nth_candidate(n, k) && !fs0.contains_key(
            crate::file_actions::nth_candidate(n, k),
        ) && (forall|j: nat| j < k ==> fs0.contains_key(crate::file_actions::nth_candidate(n, j)));
    if k1 < k2 {
        assert(fs0.contains_key(crate::file_actions::nth_candidate(n, k1)));
    } else if k2 < k1 {
        assert(fs0.contains_key(crate::file_actions::nth_candidate(n, k2)));
    }
}


/// A job outcome, abstracted to its text: what was moved where, or how the
/// job ended without moving anything.
pub enum OutcomeView {
    Moved { from: Seq<char>, to: Seq<char>, overwrote: bool },
    Skipped,
    /// The job gave up without a description: a randomize job that
    /// exhausted its retry counter.
    Exhausted,
    Failed,
}

/// The view of one outcome.
pub open spec fn outcome_view(r: Result<Report, ActionError>) -> OutcomeView {
    match r {
        Ok(Report::Renamed { from, to, overwrote }) => OutcomeView::Moved {
            from: from@,
            to: to@,
            overwrote,
        },
        Ok(Report::Nothing) => OutcomeView::Skipped,
        Err(ActionError::Unknown) => OutcomeView::Exhausted,
        Err(_) => OutcomeView::Failed,
    }
}

/// The views of a whole outcome vector.
pub open spec fn outcome_views(rs: Seq<Result<Report, ActionError>>) -> Seq<OutcomeView> {
    rs.map_values(|r: Result<Report, ActionError>| outcome_view(r))
}

/// Whether every job of the batch is a plain rename: no random names drawn.
pub open spec fn all_rename(actions: Seq<FileAction>) -> bool {
    forall|i: int| 0 <= i < actions.len() ==> (#[trigger] actions[i]).action_type is Rename
}

/// What executing one job against filesystem `fs0` can yield: the outcome
/// and the filesystem it leaves. A rename job with an existing source moves
/// it to the destination its policy picks and nothing else; without one it
/// fails and changes nothing. A randomize job with an existing source moves
/// it to some freshly drawn free random name in its directory, or gives up
/// with its retry counter exhausted and changes nothing.
pub open spec fn job_rel(
    a: FileAction,
    fs0: Map<Seq<char>, FileTime>,
    o: OutcomeView,
    fs1: Map<Seq<char>, FileTime>,
) -> bool {
    match a.action_type {
        FileActionType::Rename(n) => if fs0.contains_key(a.target@) {
            &&& o matches OutcomeView::Moved { from, to, overwrote }
            &&& from == a.target@
            &&& fs1 == fs0.remove(a.target@).insert(to, fs0[a.target@])
            &&& overwrote == fs0.contains_key(to)
            &&& if a.overwrite {
                to == n@
            } else {
                suffix_outcome(n@, fs0, to) && !fs0.contains_key(to)
            }
        } else {
            o == OutcomeView::Failed && fs1 == fs0
        },
        FileActionType::Randomize => if fs0.contains_key(a.target@) {
            ||| ({
                &&& o matches OutcomeView::Moved { from, to, overwrote }
                &&& from == a.target@
                &&& !overwrote
                &&& !fs0.contains_key(to)
                &&& exists|rv: u32|
                    to == crate::text::with_base_name(
                        a.target@,
                        crate::text::decimal_of(rv as nat),
                    )
                &&& fs1 == fs0.remove(a.target@).insert(to, fs0[a.target@])
            })
            ||| (o == OutcomeView::Exhausted && fs1 == fs0)
        } else {
            (o == OutcomeView::Failed || o == OutcomeView::Exhausted) && fs1 == fs0
        },
    }
}

/// What executing a batch of jobs in order can yield.
pub open spec fn batch_rel(
    actions: Seq<FileAction>,
    fs0: Map<Seq<char>, FileTime>,
    outs: Seq<OutcomeView>,
    fs1: Map<Seq<char>, FileTime>,
) -> bool
    decreases actions.len(),
{
    if actions.len() == 0 {
        outs.len() == 0 && fs1 == fs0
    } else {
        &&& outs.len() == actions.len()
        &&& exists|mid: Map<Seq<char>, FileTime>|
            #[trigger] job_rel(actions.first(), fs0, outs.first(), mid) && batch_rel(
                actions.drop_first(),
                mid,
                outs.drop_first(),
                fs1,
            )
    }
}

/// One more job at the end of a batch extends the relation.
proof fn lemma_batch_rel_push(
    actions: Seq<FileAction>,
    fs0: Map<Seq<char>, FileTime>,
    outs: Seq<OutcomeView>,
    mid: Map<Seq<char>, FileTime>,
    a: FileAction,
    o: OutcomeView,
    fs1: Map<Seq<char>, FileTime>,
)
    requires
        batch_rel(actions, fs0, outs, mid),
        job_rel(a, mid, o, fs1),
    ensures
        batch_rel(actions.push(a), fs0, outs.push(o), fs1),
    decreases actions.len(),
{
    if actions.len() == 0 {
        assert(actions.push(a).first() == a);
        assert(actions.push(a).drop_first() =~= Seq::<FileAction>::empty());
        assert(outs.push(o).first() == o);
        assert(outs.push(o).drop_first() =~= Seq::<OutcomeView>::empty());
        assert(exists|m: Map<Seq<char>, FileTime>|
            #[trigger] job_rel(actions.push(a).first(), fs0, outs.push(o).first(), m)
                && batch_rel(actions.push(a).drop_first(), m, outs.push(o).drop_first(), fs1)) by {
            assert(job_rel(actions.push(a).first(), fs0, outs.push(o).first(), fs1));
            assert(batch_rel(actions.push(a).drop_first(), fs1, outs.push(o).drop_first(), fs1));
        }
    } else {
        let m1 = choose|m: Map<Seq<char>, FileTime>|
            #[trigger] job_rel(actions.first(), fs0, outs.first(), m) && batch_rel(
                actions.drop_first(),
                m,
                outs.drop_first(),
                mid,
            );
        lemma_batch_rel_push(actions.drop_first(), m1, outs.drop_first(), mid, a, o, fs1);
        assert(actions.push(a).drop_first() =~= actions.drop_first().push(a));
        assert(outs.push(o).drop_first() =~= outs.drop_first().push(o));
        assert(exists|m: Map<Seq<char>, FileTime>|
            #[trigger] job_rel(actions.push(a).first(), fs0, outs.push(o).first(), m)
                && batch_rel(actions.push(a).drop_first(), m, outs.push(o).drop_first(), fs1)) by {
            assert(job_rel(actions.push(a).first(), fs0, outs.push(o).first(), m1));
            assert(batch_rel(actions.push(a).drop_first(), m1, outs.push(o).drop_first(), fs1));
        }
    }
}

/// One rename job has exactly one possible outcome and leaves exactly one
/// possible filesystem, for a given starting filesystem.
pub proof fn lemma_rename_job_deterministic(
    a: FileAction,
    fs0: Map<Seq<char>, FileTime>,
    o1: OutcomeView,
    f1: Map<Seq<char>, FileTime>,
    o2: OutcomeView,
    f2: Map<Seq<char>, FileTime>,
)
    requires
        a.action_type is Rename,
        job_rel(a, fs0, o1, f1),
        job_rel(a, fs0, o2, f2),
    ensures
        o1 == o2,
        f1 == f2,
{
    if fs0.contains_key(a.target@) {
        match a.action_type {
            FileActionType::Rename(n) => {
                if !a.overwrite {
                    let t1 = match o1 {
                        OutcomeView::Moved { to, .. } => to,
                        _ => Seq::empty(),
                    };
                    let t2 = match o2 {
                        OutcomeView::Moved { to, .. } => to,
                        _ => Seq::empty(),
                    };
                    lemma_suffix_outcome_unique(n@, fs0, t1, t2);
                }
            },
            FileActionType::Randomize => {},
        }
    }
}

/// Sequential/parallel equivalence, at its scheduling-independent core: a
/// batch of rename jobs — the jobs whose outcomes spec-level text pins down
/// once random draws are out of the picture — has exactly one possible
/// outcome sequence and one possible final filesystem for a given starting
/// filesystem. Two executions of the same batch, whatever their worker
/// count, therefore agree on every outcome.
pub proof fn lemma_rename_batch_deterministic(
    actions: Seq<FileAction>,
    fs0: Map<Seq<char>, FileTime>,
    o1: Seq<OutcomeView>,
    f1: Map<Seq<char>, FileTime>,
    o2: Seq<OutcomeView>,
    f2: Map<Seq<char>, FileTime>,
)
    requires
        all_rename(actions),
        batch_rel(actions, fs0, o1, f1),
        batch_rel(actions, fs0, o2, f2),
    ensures
        o1 == o2,
        f1 == f2,
    decreases actions.len(),
{
    if actions.len() == 0 {
        assert(o1 =~= o2);
    } else {
        let m1 = choose|m: Map<Seq<char>, FileTime>|
            #[trigger] job_rel(actions.first(), fs0, o1.first(), m) && batch_rel(
                actions.drop_first(),
                m,
                o1.drop_first(),
                f1,
            );
        let m2 = choose|m: Map<Seq<char>, FileTime>|
            #[trigger] job_rel(actions.first(), fs0, o2.first(), m) && batch_rel(
                actions.drop_first(),
                m,
                o2.drop_first(),
                f2,
            );
        assert(actions[0] == actions.first());
        lemma_rename_job_deterministic(actions.first(), fs0, o1.first(), m1, o2.first(), m2);
        assert(all_rename(actions.drop_first())) by {
            assert(forall|i: int|
                0 <= i < actions.drop_first().len() ==> (#[trigger] actions.drop_first()[i])
                    == actions[i + 1]);
        }
        lemma_rename_batch_deterministic(
            actions.drop_first(),
            m1,
            o1.drop_first(),
            f1,
            o2.drop_first(),
            f2,
        );
        assert(o1.len() == o2.len());
        assert forall|i: int| 0 <= i < o1.len() implies o1[i] == o2[i] by {
            if i == 0 {
                assert(o1[0] == o1.first());
                assert(o2[0] == o2.first());
            } else {
                assert(o1[i] == o1.drop_first()[i - 1]);
                assert(o2[i] == o2.drop_first()[i - 1]);
            }
        }
        assert(o1 =~= o2);
    }
}


/// What executing one planned job can yield: a job that already failed at
/// planning contributes its error and leaves the filesystem alone; a
/// planned action behaves as [`job_rel`] says.
pub open spec fn planned_job_rel(
    job: Result<FileAction, ActionError>,
    fs0: Map<Seq<char>, FileTime>,
    o: OutcomeView,
    fs1: Map<Seq<char>, FileTime>,
) -> bool {
    match job {
        Ok(a) => job_rel(a, fs0, o, fs1),
        Err(_) => o == OutcomeView::Failed && fs1 == fs0,
    }
}

/// What executing a list of planned jobs in order can yield.
pub open spec fn planned_batch_rel(
    jobs: Seq<Result<FileAction, ActionError>>,
    fs0: Map<Seq<char>, FileTime>,
    outs: Seq<OutcomeView>,
    fs1: Map<Seq<char>, FileTime>,
) -> bool
    decreases jobs.len(),
{
    if jobs.len() == 0 {
        outs.len() == 0 && fs1 == fs0
    } else {
        &&& outs.len() == jobs.len()
        &&& exists|mid: Map<Seq<char>, FileTime>|
            #[trigger] planned_job_rel(jobs.first(), fs0, outs.first(), mid) && planned_batch_rel(
                jobs.drop_first(),
                mid,
                outs.drop_first(),
                fs1,
            )
    }
}

/// One more planned job at the end of a batch extends the relation.
pub proof fn lemma_planned_batch_rel_push(
    jobs: Seq<Result<FileAction, ActionError>>,
    fs0: Map<Seq<char>, FileTime>,
    outs: Seq<OutcomeView>,
    mid: Map<Seq<char>, FileTime>,
    job: Result<FileAction, ActionError>,
    o: OutcomeView,
    fs1: Map<Seq<char>, FileTime>,
)
    requires
        planned_batch_rel(jobs, fs0, outs, mid),
        planned_job_rel(job, mid, o, fs1),
    ensures
        planned_batch_rel(jobs.push(job), fs0, outs.push(o), fs1),
    decreases jobs.len(),
{
    if jobs.len() == 0 {
        assert(jobs.push(job).first() == job);
        assert(jobs.push(job).drop_first() =~= Seq::<Result<FileAction, ActionError>>::empty());
        assert(outs.push(o).first() == o);
        assert(outs.push(o).drop_first() =~= Seq::<OutcomeView>::empty());
        assert(exists|m: Map<Seq<char>, FileTime>|
            #[trigger] planned_job_rel(jobs.push(job).first(), fs0, outs.push(o).first(), m)
                && planned_batch_rel(
                jobs.push(job).drop_first(),
                m,
                outs.push(o).drop_first(),
                fs1,
            )) by {
            assert(planned_job_rel(jobs.push(job).first(), fs0, outs.push(o).first(), fs1));
            assert(planned_batch_rel(
                jobs.push(job).drop_first(),
                fs1,
                outs.push(o).drop_first(),
                fs1,
            ));
        }
    } else {
        let m1 = choose|m: Map<Seq<char>, FileTime>|
            #[trigger] planned_job_rel(jobs.first(), fs0, outs.first(), m) && planned_batch_rel(
                jobs.drop_first(),
                m,
                outs.drop_first(),
                mid,
            );
        lemma_planned_batch_rel_push(jobs.drop_first(), m1, outs.drop_first(), mid, job, o, fs1);
        assert(jobs.push(job).drop_first() =~= jobs.drop_first().push(job));
        assert(outs.push(o).drop_first() =~= outs.drop_first().push(o));
        assert(exists|m: Map<Seq<char>, FileTime>|
            #[trigger] planned_job_rel(jobs.push(job).first(), fs0, outs.push(o).first(), m)
                && planned_batch_rel(
                jobs.push(job).drop_first(),
                m,
                outs.push(o).drop_first(),
                fs1,
            )) by {
            assert(planned_job_rel(jobs.push(job).first(), fs0, outs.push(o).first(), m1));
            assert(planned_batch_rel(
                jobs.push(job).drop_first(),
                m1,
                outs.push(o).drop_first(),
                fs1,
            ));
        }
    }
}

} // verus!