//! Batch file renaming around a small declarative pattern language: compile
//! a pattern from text or a preset, pair it with files in an action group,
//! and execute the cross product of rename jobs with per-job collision
//! resolution and failure isolation.

pub mod error;
pub mod file_actions;
pub mod fs_model;
pub mod patterns;
pub mod report;
pub mod runner;
pub mod text;

use vstd::prelude::*;

use crate::error::ActionError;
use crate::file_actions::{FileAction, FileActionContext, FileActionType};
use crate::fs_model::{FileTime, FsModel};
use crate::patterns::{applied_path, needs_modified, ApplyDyn, RenamePattern};
use crate::report::Report;
use crate::runner::{
    lemma_planned_batch_rel_push, outcome_view, outcome_views, planned_batch_rel, planned_job_rel,
    RunnerConfig,
};

verus! {

/// A batch pairing files with compiled patterns. File and pattern ids grow
/// monotonically and are never reused within the group's lifetime, so
/// outside references to them stay stable across removals. Execution forms
/// the cross product of files and patterns.
pub struct ActionGroup {
    id: i32,
    files: Vec<(i32, String)>,
    next_file_id: i32,
    patterns: Vec<(i32, RenamePattern)>,
    next_action_id: i32,
}

impl ActionGroup {
    /// The files, as (id, path) pairs in insertion order.
    pub closed spec fn files_seq(&self) -> Seq<(i32, String)> {
        self.files@
    }

    /// The patterns, as (id, pattern) pairs in insertion order.
    pub closed spec fn patterns_seq(&self) -> Seq<(i32, RenamePattern)> {
        self.patterns@
    }

    /// The group's id.
    pub closed spec fn spec_id(&self) -> i32 {
        self.id
    }

    /// The next file id to be handed out.
    pub closed spec fn spec_next_file_id(&self) -> i32 {
        self.next_file_id
    }

    /// The next pattern id to be handed out.
    pub closed spec fn spec_next_action_id(&self) -> i32 {
        self.next_action_id
    }

    /// Well-formed: ids strictly increase in insertion order and stay below
    /// the next id to be handed out, and every pattern is well-formed.
    pub closed spec fn wf(&self) -> bool {
        &&& forall|i: int, j: int|
            0 <= i < j < self.files@.len() ==> (#[trigger] self.files@[i]).0 < (
            #[trigger] self.files@[j]).0
        &&& forall|i: int|
            0 <= i < self.files@.len() ==> (#[trigger] self.files@[i]).0 < self.next_file_id
        &&& forall|i: int, j: int|
            0 <= i < j < self.patterns@.len() ==> (#[trigger] self.patterns@[i]).0 < (
            #[trigger] self.patterns@[j]).0
        &&& forall|i: int|
            0 <= i < self.patterns@.len() ==> (#[trigger] self.patterns@[i]).0
                < self.next_action_id
        &&& forall|i: int| 0 <= i < self.patterns@.len() ==> (#[trigger] self.patterns@[i]).1.wf()
    }

    /// An empty group; its file and pattern id counters start at zero.
    pub fn new(id: i32) -> (r: Self)
        ensures
            r.wf(),
            r.spec_id() == id,
            r.files_seq().len() == 0,
            r.patterns_seq().len() == 0,
            r.spec_next_file_id() == 0,
            r.spec_next_action_id() == 0,
    {
        Self { id, files: Vec::new(), next_file_id: 0, patterns: Vec::new(), next_action_id: 0 }
    }

    /// The group's id.
    pub fn id(&self) -> (r: i32)
        ensures
            r == self.spec_id(),
    {
        self.id
    }

    /// The files, for inspection.
    pub fn files(&self) -> (r: &Vec<(i32, String)>)
        ensures
            r@ == self.files_seq(),
    {
        &self.files
    }

    /// The patterns, for inspection.
    pub fn patterns(&self) -> (r: &Vec<(i32, RenamePattern)>)
        ensures
            r@ == self.patterns_seq(),
    {
        &self.patterns
    }

    /// Add a file under the next file id.
    pub fn add_file(&mut self, file: String)
        requires
            old(self).wf(),
            old(self).spec_next_file_id() < i32::MAX,
        ensures
            final(self).wf(),
            final(self).files_seq() == old(self).files_seq().push(
                (old(self).spec_next_file_id(), file),
            ),
            final(self).patterns_seq() == old(self).patterns_seq(),
            final(self).spec_id() == old(self).spec_id(),
            final(self).spec_next_file_id() == old(self).spec_next_file_id() + 1,
    {
        self.files.push((self.next_file_id, file));
        self.next_file_id = self.next_file_id + 1;
    }

    /// Add a pattern under the next pattern id.
    pub fn add_pattern(&mut self, pattern: RenamePattern)
        requires
            old(self).wf(),
            old(self).spec_next_action_id() < i32::MAX,
            pattern.wf(),
        ensures
            final(self).wf(),
            final(self).patterns_seq() == old(self).patterns_seq().push(
                (old(self).spec_next_action_id(), pattern),
            ),
            final(self).files_seq() == old(self).files_seq(),
            final(self).spec_id() == old(self).spec_id(),
            final(self).spec_next_action_id() == old(self).spec_next_action_id() + 1,
    {
        self.patterns.push((self.next_action_id, pattern));
        self.next_action_id = self.next_action_id + 1;
    }

    /// Replace the pattern table wholesale. The new ids must come from this
    /// group's own numbering: strictly increasing and each below the next id
    /// to be handed out, so that ids are never reused.
    pub fn set_patterns(&mut self, patterns: Vec<(i32, RenamePattern)>)
        requires
            old(self).wf(),
            forall|i: int, j: int|
                0 <= i < j < patterns@.len() ==> (#[trigger] patterns@[i]).0 < (
                #[trigger] patterns@[j]).0,
            forall|i: int|
                0 <= i < patterns@.len() ==> (#[trigger] patterns@[i]).0 < old(
                    self,
                ).spec_next_action_id(),
            forall|i: int| 0 <= i < patterns@.len() ==> (#[trigger] patterns@[i]).1.wf(),
        ensures
            final(self).wf(),
            final(self).patterns_seq() == patterns@,
            final(self).files_seq() == old(self).files_seq(),
            final(self).spec_id() == old(self).spec_id(),
            final(self).spec_next_action_id() == old(self).spec_next_action_id(),
    {
        self.patterns = patterns;
    }

    /// Remove the file under `id`, if present: the file list keeps every
    /// other entry, in order, and the id counters do not move, so the
    /// removed id is never reused.
    pub fn remove_file(&mut self, id: i32)
        requires
            old(self).wf(),
        ensures
            final(self).wf(),
            final(self).patterns_seq() == old(self).patterns_seq(),
            final(self).spec_id() == old(self).spec_id(),
            final(self).spec_next_file_id() == old(self).spec_next_file_id(),
            final(self).spec_next_action_id() == old(self).spec_next_action_id(),
            (exists|j: int|
                0 <= j < old(self).files_seq().len() && (#[trigger] old(self).files_seq()[j]).0
                    == id && final(self).files_seq() == old(self).files_seq().remove(j)) || (
            final(self).files_seq() == old(self).files_seq() && forall|k: int|
                0 <= k < old(self).files_seq().len() ==> (#[trigger] old(self).files_seq()[k]).0
                    != id),
            forall|k: int|
                0 <= k < final(self).files_seq().len() ==> (#[trigger] final(self).files_seq()[k]).0 != id,
    {
        let mut i: usize = 0;
        #[verifier::loop_isolation(false)]
        while i < self.files.len()
            invariant
                i <= self.files@.len(),
                self.files@ == old(self).files_seq(),
                self.patterns@ == old(self).patterns_seq(),
                self.id == old(self).spec_id(),
                self.next_file_id == old(self).spec_next_file_id(),
                self.next_action_id == old(self).spec_next_action_id(),
                forall|k: int| 0 <= k < i ==> (#[trigger] self.files@[k]).0 != id,
            decreases self.files@.len() - i,
        {
            if self.files[i].0 == id {
                let ghost pre = self.files@;
                proof {
                    pre.remove_ensures(i as int);
                }
                let _ = self.files.remove(i);
                proof {
                    assert forall|k: int|
                        0 <= k < self.files@.len() implies (#[trigger] self.files@[k]).0
                        != id && (self.files@[k]).0 < self.next_file_id by {
                        if k < i {
                            assert(self.files@[k] == pre[k]);
                        } else {
                            assert(self.files@[k] == pre[k + 1]);
                        }
                    }
                    assert forall|a: int, b: int|
                        0 <= a < b < self.files@.len() implies (#[trigger] self.files@[a]).0 < (
                    #[trigger] self.files@[b]).0 by {
                        if a < i {
                            assert(self.files@[a] == pre[a]);
                        } else {
                            assert(self.files@[a] == pre[a + 1]);
                        }
                        if b < i {
                            assert(self.files@[b] == pre[b]);
                        } else {
                            assert(self.files@[b] == pre[b + 1]);
                        }
                    }
                }
                return ;
            }
            i = i + 1;
        }
    }

    /// Remove the pattern under `id`, if present: the pattern list keeps
    /// every other entry, in order, and the id counters do not move, so the
    /// removed id is never reused.
    pub fn remove_pattern(&mut self, id: i32)
        requires
            old(self).wf(),
        ensures
            final(self).wf(),
            final(self).files_seq() == old(self).files_seq(),
            final(self).spec_id() == old(self).spec_id(),
            final(self).spec_next_file_id() == old(self).spec_next_file_id(),
            final(self).spec_next_action_id() == old(self).spec_next_action_id(),
            (exists|j: int|
                0 <= j < old(self).patterns_seq().len() && (#[trigger] old(self).patterns_seq()[
                    j
                ]).0 == id && final(self).patterns_seq() == old(self).patterns_seq().remove(j))
                || (final(self).patterns_seq() == old(self).patterns_seq() && forall|k: int|
                0 <= k < old(self).patterns_seq().len() ==> (#[trigger] old(self).patterns_seq()[
                    k
                ]).0 != id),
            forall|k: int|
                0 <= k < final(self).patterns_seq().len() ==> (#[trigger] final(self).patterns_seq()[k]).0 != id,
    {
        let mut i: usize = 0;
        #[verifier::loop_isolation(false)]
        while i < self.patterns.len()
            invariant
                i <= self.patterns@.len(),
                self.patterns@ == old(self).patterns_seq(),
                self.files@ == old(self).files_seq(),
                self.id == old(self).spec_id(),
                self.next_file_id == old(self).spec_next_file_id(),
                self.next_action_id == old(self).spec_next_action_id(),
                forall|k: int| 0 <= k < i ==> (#[trigger] self.patterns@[k]).0 != id,
            decreases self.patterns@.len() - i,
        {
            if self.patterns[i].0 == id {
                let ghost pre = self.patterns@;
                proof {
                    pre.remove_ensures(i as int);
                }
                let _ = self.patterns.remove(i);
                proof {
                    assert forall|k: int|
                        0 <= k < self.patterns@.len() implies (#[trigger] self.patterns@[k]).0
                        != id && (self.patterns@[k]).0 < self.next_action_id && (
                    self.patterns@[k]).1.wf() by {
                        if k < i {
                            assert(self.patterns@[k] == pre[k]);
                        } else {
                            assert(self.patterns@[k] == pre[k + 1]);
                        }
                    }
                    assert forall|a: int, b: int|
                        0 <= a < b < self.patterns@.len() implies (#[trigger] self.patterns@[a]).0
                        < (#[trigger] self.patterns@[b]).0 by {
                        if a < i {
                            assert(self.patterns@[a] == pre[a]);
                        } else {
                            assert(self.patterns@[a] == pre[a + 1]);
                        }
                        if b < i {
                            assert(self.patterns@[b] == pre[b]);
                        } else {
                            assert(self.patterns@[b] == pre[b + 1]);
                        }
                    }
                }
                return ;
            }
            i = i + 1;
        }
    }
}


/// What planning one (pattern, file) job against filesystem `fs0` yields.
/// The "Randomize" preset becomes a randomize job; any other pattern is
/// applied to the file's path — which fails exactly when the pattern needs
/// the file's modification time and the file does not exist — and its
/// candidate becomes the job's destination, under the pattern's overwrite
/// option.
pub open spec fn spec_generated_job(
    pat: RenamePattern,
    file: Seq<char>,
    fs0: Map<Seq<char>, FileTime>,
    job: Result<FileAction, ActionError>,
) -> bool {
    if pat.spec_preset() is Some {
        &&& job matches Ok(a)
        &&& a.action_type is Randomize
        &&& a.target@ == file
        &&& a.overwrite == false
    } else if needs_modified(pat.elems_view()) && !fs0.contains_key(file) {
        job matches Err(e) && e is Other
    } else {
        &&& job matches Ok(a)
        &&& a.target@ == file
        &&& a.overwrite == pat.spec_options().overwrite
        &&& a.action_type matches FileActionType::Rename(n)
        &&& exists|d: ApplyDyn|
            n@ == applied_path(pat.elems_view(), pat.groups_map(), pat.spec_options(), file, d)
    }
}

impl ActionGroup {
    /// Expand the cross product of patterns and files into one job per
    /// pair, pattern-major: the job for pattern `j` and file `i` stands at
    /// index `j * files + i`. A pattern failing to apply to a file yields
    /// that job's error and never affects its siblings. The "Randomize"
    /// preset becomes a randomize job; every other pattern is applied to
    /// the file's path to compute the candidate destination.
    fn generate_actions(&self, fs: &FsModel) -> (r: Vec<Result<FileAction, ActionError>>)
        requires
            self.wf(),
            fs.wf(),
        ensures
            r@.len() == self.patterns_seq().len() * self.files_seq().len(),
            forall|j: int, i: int|
                0 <= j < self.patterns_seq().len() && 0 <= i < self.files_seq().len()
                    ==> spec_generated_job(
                    self.patterns_seq()[j].1,
                    self.files_seq()[i].1@,
                    fs@,
                    #[trigger] r@[j * self.files_seq().len() + i],
                ),
            forall|m: int|
                0 <= m < r@.len() ==> ((#[trigger] r@[m]) matches Err(e) ==> e is Other),
            (forall|jj: int|
                0 <= jj < self.patterns_seq().len() ==> !(#[trigger] self.patterns_seq()[jj]).1.spec_options().overwrite)
                ==> forall|m: int|
                0 <= m < r@.len() ==> (match #[trigger] r@[m] {
                    Ok(a) => !a.destructive(),
                    Err(_) => true,
                }),
    {
        let ghost flen = self.files@.len() as int;
        let ghost plen = self.patterns@.len() as int;
        let mut r: Vec<Result<FileAction, ActionError>> = Vec::new();
        let mut j: usize = 0;
        #[verifier::loop_isolation(false)]
        while j < self.patterns.len()
            invariant
                j <= self.patterns@.len(),
                r@.len() == j * flen,
                forall|jj: int, ii: int|
                    0 <= jj < j && 0 <= ii < flen ==> spec_generated_job(
                        self.patterns@[jj].1,
                        self.files@[ii].1@,
                        fs@,
                        #[trigger] r@[jj * flen + ii],
                    ),
                forall|m: int|
                    0 <= m < r@.len() ==> ((#[trigger] r@[m]) matches Err(e) ==> e is Other),
            decreases self.patterns@.len() - j,
        {
            let mut i: usize = 0;
            #[verifier::loop_isolation(false)]
            while i < self.files.len()
                invariant
                    j < self.patterns@.len(),
                    i <= self.files@.len(),
                    r@.len() == j * flen + i,
                    forall|jj: int, ii: int|
                        0 <= jj < j && 0 <= ii < flen ==> spec_generated_job(
                            self.patterns@[jj].1,
                            self.files@[ii].1@,
                            fs@,
                            #[trigger] r@[jj * flen + ii],
                        ),
                    forall|ii: int|
                        0 <= ii < i ==> spec_generated_job(
                            self.patterns@[j as int].1,
                            self.files@[ii].1@,
                            fs@,
                            #[trigger] r@[j * flen + ii],
                        ),
                    forall|m: int|
                        0 <= m < r@.len() ==> ((#[trigger] r@[m]) matches Err(e) ==> e is Other),
                decreases self.files@.len() - i,
            {
                let pat = &self.patterns[j].1;
                proof {
                    assert(self.patterns@[j as int].1.wf());
                }
                let file_path = self.files[i].1.clone();
                let entry = if pat.preset_info().is_some() {
                    Ok(FileAction::new(FileActionType::Randomize, file_path, false))
                } else {
                    let mtime = fs.mtime_of(self.files[i].1.as_str());
                    match pat.apply_to_file_name(self.files[i].1.as_str(), mtime) {
                        Ok(c) => Ok(
                            FileAction::new(
                                FileActionType::Rename(c),
                                file_path,
                                pat.options().overwrite,
                            ),
                        ),
                        Err(e) => Err(e),
                    }
                };
                r.push(entry);
                proof {
                    assert forall|jj: int, ii: int|
                        0 <= jj < j && 0 <= ii < flen implies spec_generated_job(
                        self.patterns@[jj].1,
                        self.files@[ii].1@,
                        fs@,
                        #[trigger] r@[jj * flen + ii],
                    ) by {
                        assert(jj * flen + ii < j * flen + i) by (nonlinear_arith)
                            requires
                                0 <= jj < j,
                                0 <= ii < flen,
                                i >= 0,
                        ;
                    }
                }
                i = i + 1;
            }
            j = j + 1;
            proof {
                assert(j * flen == (j - 1) * flen + flen) by (nonlinear_arith);
            }
        }
        proof {
            assert(r@.len() == plen * flen);
            if forall|jj: int|
                0 <= jj < plen ==> !(#[trigger] self.patterns@[jj]).1.spec_options().overwrite {
                assert forall|m: int|
                    0 <= m < r@.len() implies (match #[trigger] r@[m] {
                    Ok(a) => !a.destructive(),
                    Err(_) => true,
                }) by {
                    let jj = m / flen;
                    let ii = m % flen;
                    assert(0 <= jj < plen && 0 <= ii < flen && m == jj * flen + ii) by (nonlinear_arith)
                        requires
                            0 <= m < plen * flen,
                            flen > 0,
                            jj == m / flen,
                            ii == m % flen,
                    ;
                    assert(r@[jj * flen + ii] == r@[m]);
                    assert(spec_generated_job(
                        self.patterns@[jj].1,
                        self.files@[ii].1@,
                        fs@,
                        r@[m],
                    ));
                }
            }
        }
        r
    }

    /// Execute the group's cross product of rename jobs: exactly one
    /// outcome per (pattern, file) pair, pattern-major, each job's failure
    /// isolated from its siblings. The planned jobs are pinned per pair by
    /// [`spec_generated_job`] against the starting filesystem, and the
    /// outcomes follow the planned jobs in order ([`planned_batch_rel`]):
    /// a job that failed to plan contributes exactly its error and touches
    /// nothing; every planned action moves its file as its collision policy
    /// dictates or fails leaving the filesystem as it was. When no pattern
    /// may overwrite, the number of files is preserved: nothing is lost and
    /// nothing duplicated.
    pub fn execute(&self, config: RunnerConfig, fs: &mut FsModel) -> (r: Vec<
        Result<Report, ActionError>,
    >)
        requires
            self.wf(),
            old(fs).wf(),
        ensures
            final(fs).wf(),
            r@.len() == self.patterns_seq().len() * self.files_seq().len(),
            forall|j: int, i: int|
                0 <= j < self.patterns_seq().len() && 0 <= i < self.files_seq().len()
                    ==> match #[trigger] r@[j * self.files_seq().len() + i] {
                    Ok(rep) => (rep matches Report::Renamed { from, to, overwrote } && from@
                        == self.files_seq()[i].1@),
                    Err(_) => true,
                },
            exists|jobs: Seq<Result<FileAction, ActionError>>|
                #[trigger] planned_batch_rel(jobs, old(fs)@, outcome_views(r@), final(fs)@)
                    && jobs.len() == self.patterns_seq().len() * self.files_seq().len() && (forall|
                    j: int,
                    i: int,
                |
                    0 <= j < self.patterns_seq().len() && 0 <= i < self.files_seq().len()
                        ==> spec_generated_job(
                        self.patterns_seq()[j].1,
                        self.files_seq()[i].1@,
                        old(fs)@,
                        #[trigger] jobs[j * self.files_seq().len() + i],
                    )),
            (forall|jj: int|
                0 <= jj < self.patterns_seq().len() ==> !(#[trigger] self.patterns_seq()[jj]).1.spec_options().overwrite)
                ==> final(fs)@.dom().len() == old(fs)@.dom().len(),
    {
        let _threads = config.num_threads;
        let ctx = FileActionContext::new();
        let mut jobs = self.generate_actions(fs);
        let ghost jobs0 = jobs@;
        let mut results: Vec<Result<Report, ActionError>> = Vec::new();
        proof {
            assert(jobs@ =~= jobs0.subrange(0, jobs0.len() as int));
            assert(jobs0.subrange(0, 0) =~= Seq::<Result<FileAction, ActionError>>::empty());
            assert(outcome_views(results@) =~= Seq::<crate::runner::OutcomeView>::empty());
        }
        #[verifier::loop_isolation(false)]
        while jobs.len() > 0
            invariant
                fs.wf(),
                results@.len() + jobs@.len() == jobs0.len(),
                jobs@ == jobs0.subrange(results@.len() as int, jobs0.len() as int),
                planned_batch_rel(
                    jobs0.subrange(0, results@.len() as int),
                    old(fs)@,
                    outcome_views(results@),
                    fs@,
                ),
                forall|m: int|
                    0 <= m < results@.len() ==> match jobs0[m] {
                        Ok(a) => match #[trigger] results@[m] {
                            Ok(rep) => (rep matches Report::Renamed { from, to, overwrote }
                                && from@ == a.target@),
                            Err(_) => true,
                        },
                        Err(_) => results@[m] is Err,
                    },
                (forall|m: int|
                    0 <= m < jobs0.len() ==> (match #[trigger] jobs0[m] {
                        Ok(a) => !a.destructive(),
                        Err(_) => true,
                    })) ==> fs@.dom().len() == old(fs)@.dom().len(),
            decreases jobs@.len(),
        {
            let ghost fs_pre = fs@;
            let ghost m = results@.len() as int;
            let job = jobs.remove(0);
            proof {
                assert(job == jobs0[m]);
                fs.lemma_dom_finite();
            }
            let res = match job {
                Ok(a) => {
                    let ghost ga = a;
                    let out = a.run(&ctx, fs);
                    proof {
                        if !ga.destructive() && out is Ok {
                            match out->Ok_0 {
                                Report::Renamed { from, to, overwrote } => {
                                    assert(fs@.dom() =~= fs_pre.dom().remove(from@).insert(to@));
                                    vstd::set::axiom_set_remove_len(fs_pre.dom(), from@);
                                    vstd::set::axiom_set_insert_len(
                                        fs_pre.dom().remove(from@),
                                        to@,
                                    );
                                },
                                Report::Nothing => {},
                            }
                        }
                    }
                    out
                },
                Err(e) => Err(e),
            };
            let ghost views_pre = outcome_views(results@);
            results.push(res);
            proof {
                assert(jobs@ =~= jobs0.subrange(results@.len() as int, jobs0.len() as int));
                assert(planned_job_rel(jobs0[m], fs_pre, outcome_view(res), fs@));
                lemma_planned_batch_rel_push(
                    jobs0.subrange(0, m),
                    old(fs)@,
                    views_pre,
                    fs_pre,
                    jobs0[m],
                    outcome_view(res),
                    fs@,
                );
                assert(jobs0.subrange(0, m).push(jobs0[m]) =~= jobs0.subrange(0, m + 1));
                assert(outcome_views(results@) =~= views_pre.push(outcome_view(res)));
            }
        }
        proof {
            let ghost flen = self.files@.len() as int;
            let ghost plen = self.patterns@.len() as int;
            assert forall|j: int, i: int|
                0 <= j < plen && 0 <= i < flen implies (match #[trigger] results@[j * flen + i] {
                Ok(rep) => (rep matches Report::Renamed { from, to, overwrote } && from@
                    == self.files@[i].1@),
                Err(_) => true,
            }) by {
                assert(0 <= j * flen + i < plen * flen) by (nonlinear_arith)
                    requires
                        0 <= j < plen,
                        0 <= i < flen,
                ;
                assert(match jobs0[j * flen + i] {
                    Ok(a) => a.target@ == self.files@[i].1@,
                    Err(_) => true,
                }) by {
                    assert(spec_generated_job(
                        self.patterns@[j].1,
                        self.files@[i].1@,
                        old(fs)@,
                        jobs0[j * flen + i],
                    ));
                }
            }
            assert(jobs0.subrange(0, jobs0.len() as int) =~= jobs0);
            assert(exists|jobs: Seq<Result<FileAction, ActionError>>|
                #[trigger] planned_batch_rel(jobs, old(fs)@, outcome_views(results@), fs@)
                    && jobs.len() == plen * flen && (forall|j: int, i: int|
                    0 <= j < plen && 0 <= i < flen ==> spec_generated_job(
                        self.patterns@[j].1,
                        self.files@[i].1@,
                        old(fs)@,
                        #[trigger] jobs[j * flen + i],
                    ))) by {
                assert(planned_batch_rel(jobs0, old(fs)@, outcome_views(results@), fs@));
                assert(forall|j: int, i: int|
                    0 <= j < plen && 0 <= i < flen ==> spec_generated_job(
                        self.patterns@[j].1,
                        self.files@[i].1@,
                        old(fs)@,
                        #[trigger] jobs0[j * flen + i],
                    ));
            }
        }
        results
    }
}

} // verus!