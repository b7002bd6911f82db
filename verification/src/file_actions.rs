//! One rename job: its collision policy as an explicit state machine, and
//! its execution against the modelled filesystem.
//!
//! A job alternates decisions with filesystem work. The decisions stand in
//! [`job_start`] and [`job_step`], pinned by [`job_start_spec`] and
//! [`job_step_spec`]; every command they issue is performed either by
//! [`FileAction::run`] against the in-memory model, or by an outer
//! interpreter loop holding a real disk, which feeds the resulting event
//! back in.

use vstd::prelude::*;

use vstd::set_lib::lemma_len_subset;

use crate::error::ActionError;
use crate::fs_model::{FileTime, FsModel};
use crate::patterns::random_u32;
use crate::report::Report;
use crate::text::{decimal_of, string_from_chars, sub_chars, u32_to_decimal, u64_to_decimal, with_base_name};

verus! {

/// What a job does to its target.
#[derive(Debug)]
pub enum FileActionType {
    /// Move the target to a freshly drawn random name in its directory,
    /// redrawing on every collision.
    Randomize,
    /// Move the target to this candidate path, resolving collisions by the
    /// job's overwrite policy.
    Rename(String),
}

/// One rename job: a target, what to do with it, and whether an existing
/// file at the destination may be replaced.
#[derive(Debug)]
pub struct FileAction {
    pub action_type: FileActionType,
    pub target: String,
    pub overwrite: bool,
}

impl FileAction {
    /// A job that may replace an existing destination only when `overwrite`
    /// is set; randomize jobs never replace one.
    pub fn new(action_type: FileActionType, target: String, overwrite: bool) -> (r: Self)
        ensures
            r.action_type == action_type,
            r.target == target,
            r.overwrite == overwrite,
    {
        Self { action_type, target, overwrite }
    }

    /// Whether this job may replace an existing file.
    pub open spec fn destructive(&self) -> bool {
        self.overwrite && self.action_type is Rename
    }
}

/// Per-execution context threaded into each job. It carries no state today;
/// it exists so that any future cross-job bookkeeping is an explicit
/// argument rather than ambient global state.
#[derive(Debug)]
pub struct FileActionContext {}

impl FileActionContext {
    pub fn new() -> Self {
        Self {}
    }
}

/// The collision policy a job runs under.
#[derive(Clone, Copy, PartialEq, Eq, Structural, Debug)]
pub enum JobMode {
    /// Append incrementing counter text to the candidate until a free name
    /// is found; never replace an existing file.
    Suffix,
    /// Rename onto the candidate whether or not it exists; report whether it
    /// did.
    Overwrite,
    /// Draw a fresh random name on every collision; never replace an
    /// existing file.
    Randomize,
}

/// Where a job stands.
#[derive(Clone, Copy, PartialEq, Eq, Structural, Debug)]
pub enum JobPhase {
    /// The last command probed the candidate for existence.
    Probing,
    /// The last command asked for the rename itself.
    Renaming,
}

/// A job in flight.
#[derive(Debug)]
pub struct JobState {
    pub target: String,
    pub mode: JobMode,
    pub candidate: String,
    pub count: u64,
    pub phase: JobPhase,
    pub overwrote: bool,
}

/// What a job asks its interpreter to do next.
#[derive(Debug)]
pub enum JobCmd {
    /// Ask whether a file exists at this path.
    Probe(String),
    /// Move the file at `from` to `to`.
    DoRename { from: String, to: String },
}

/// What the interpreter reports back.
#[derive(Debug)]
pub enum JobEvent {
    /// The probe's answer.
    Exists(bool),
    /// The probe itself failed, with a message.
    ProbeFailed(String),
    /// The rename succeeded.
    RenameOk,
    /// The rename failed, with a message.
    RenameFailed(String),
}

/// A step's outcome: another command, or the job's result.
#[derive(Debug)]
pub enum JobStep {
    Next(JobState, JobCmd),
    Done(Result<Report, ActionError>),
}

/// The mode a job's options select.
pub open spec fn mode_of(a: FileAction) -> JobMode {
    match a.action_type {
        FileActionType::Randomize => JobMode::Randomize,
        FileActionType::Rename(_) => if a.overwrite {
            JobMode::Overwrite
        } else {
            JobMode::Suffix
        },
    }
}

/// The `k`-th candidate of the suffix policy: each collision appends the
/// incremented counter's text to the previous candidate.
pub open spec fn nth_candidate(n: Seq<char>, k: nat) -> Seq<char>
    decreases k,
{
    if k == 0 {
        n
    } else {
        nth_candidate(n, (k - 1) as nat) + decimal_of(k)
    }
}

/// How a job starts: probing its initial candidate. `rv` is the random draw
/// a randomize job consumes.
pub open spec fn job_start_spec(a: FileAction, rv: u32, s: JobState, cmd: JobCmd) -> bool {
    &&& s.target@ == a.target@
    &&& s.mode == mode_of(a)
    &&& s.count == 0
    &&& s.phase == JobPhase::Probing
    &&& s.overwrote == false
    &&& match a.action_type {
        FileActionType::Rename(n) => s.candidate@ == n@,
        FileActionType::Randomize => s.candidate@ == with_base_name(
            a.target@,
            decimal_of(rv as nat),
        ),
    }
    &&& cmd matches JobCmd::Probe(p)
    &&& p@ == s.candidate@
}

/// How a job advances on one event. `rv` is the random draw a randomize job
/// consumes on a collision; every other transition ignores it. The
/// non-destructive modes command a rename only for a candidate whose probe
/// just reported absent; the overwrite mode renames onto the probed
/// candidate either way and remembers whether it existed.
pub open spec fn job_step_spec(s: JobState, e: JobEvent, rv: u32, r: JobStep) -> bool {
    match s.phase {
        JobPhase::Probing => match e {
            JobEvent::Exists(ex) => match s.mode {
                JobMode::Overwrite => {
                    &&& r matches JobStep::Next(s2, cmd)
                    &&& s2.target@ == s.target@
                    &&& s2.mode == s.mode
                    &&& s2.candidate@ == s.candidate@
                    &&& s2.count == s.count
                    &&& s2.phase == JobPhase::Renaming
                    &&& s2.overwrote == ex
                    &&& cmd matches JobCmd::DoRename { from, to }
                    &&& from@ == s.target@
                    &&& to@ == s.candidate@
                },
                JobMode::Suffix => if !ex {
                    &&& r matches JobStep::Next(s2, cmd)
                    &&& s2.target@ == s.target@
                    &&& s2.mode == s.mode
                    &&& s2.candidate@ == s.candidate@
                    &&& s2.count == s.count
                    &&& s2.phase == JobPhase::Renaming
                    &&& s2.overwrote == false
                    &&& cmd matches JobCmd::DoRename { from, to }
                    &&& from@ == s.target@
                    &&& to@ == s.candidate@
                } else if s.count == u64::MAX {
                    r == JobStep::Done(Err::<Report, ActionError>(ActionError::Unknown))
                } else {
                    &&& r matches JobStep::Next(s2, cmd)
                    &&& s2.target@ == s.target@
                    &&& s2.mode == s.mode
                    &&& s2.candidate@ == s.candidate@ + decimal_of((s.count + 1) as nat)
                    &&& s2.count == s.count + 1
                    &&& s2.phase == JobPhase::Probing
                    &&& s2.overwrote == false
                    &&& cmd matches JobCmd::Probe(p)
                    &&& p@ == s2.candidate@
                },
                JobMode::Randomize => if !ex {
                    &&& r matches JobStep::Next(s2, cmd)
                    &&& s2.target@ == s.target@
                    &&& s2.mode == s.mode
                    &&& s2.candidate@ == s.candidate@
                    &&& s2.count == s.count
                    &&& s2.phase == JobPhase::Renaming
                    &&& s2.overwrote == false
                    &&& cmd matches JobCmd::DoRename { from, to }
                    &&& from@ == s.target@
                    &&& to@ == s.candidate@
                } else if s.count == u64::MAX {
                    r == JobStep::Done(Err::<Report, ActionError>(ActionError::Unknown))
                } else {
                    &&& r matches JobStep::Next(s2, cmd)
                    &&& s2.target@ == s.target@
                    &&& s2.mode == s.mode
                    &&& s2.candidate@ == with_base_name(s.target@, decimal_of(rv as nat))
                    &&& s2.count == s.count + 1
                    &&& s2.phase == JobPhase::Probing
                    &&& s2.overwrote == false
                    &&& cmd matches JobCmd::Probe(p)
                    &&& p@ == s2.candidate@
                },
            },
            JobEvent::ProbeFailed(m) => {
                &&& r matches JobStep::Done(res)
                &&& res matches Err(ActionError::Other(m2))
                &&& m2@ == m@
            },
            _ => r == JobStep::Done(Err::<Report, ActionError>(ActionError::Unknown)),
        },
        JobPhase::Renaming => match e {
            JobEvent::RenameOk => {
                &&& r matches JobStep::Done(res)
                &&& res matches Ok(Report::Renamed { from, to, overwrote })
                &&& from@ == s.target@
                &&& to@ == s.candidate@
                &&& overwrote == s.overwrote
            },
            JobEvent::RenameFailed(m) => {
                &&& r matches JobStep::Done(res)
                &&& res matches Err(ActionError::Other(m2))
                &&& m2@ == m@
            },
            _ => r == JobStep::Done(Err::<Report, ActionError>(ActionError::Unknown)),
        },
    }
}

/// The directory prefix of `target` with a freshly drawn random decimal name.
fn random_candidate(target: &str) -> (r: (String, u32))
    ensures
        r.0@ == with_base_name(target@, decimal_of(r.1 as nat)),
{
    let rv = random_u32();
    let chars = crate::text::chars_of(target);
    let bstart = crate::text::base_start_exec(&chars);
    let mut c = string_from_chars(&sub_chars(&chars, 0, bstart));
    c.append(u32_to_decimal(rv).as_str());
    (c, rv)
}

/// Start a job: its initial state and first probe.
pub fn job_start(a: FileAction) -> (r: (JobState, JobCmd))
    ensures
        exists|rv: u32| job_start_spec(a, rv, r.0, r.1),
{
    let ghost ga = a;
    match a.action_type {
        FileActionType::Rename(n) => {
            let mode = if a.overwrite {
                JobMode::Overwrite
            } else {
                JobMode::Suffix
            };
            let cmd = JobCmd::Probe(n.clone());
            let s = JobState {
                target: a.target,
                mode,
                candidate: n,
                count: 0,
                phase: JobPhase::Probing,
                overwrote: false,
            };
            let out = (s, cmd);
            proof {
                assert(exists|rv: u32| job_start_spec(ga, rv, out.0, out.1)) by {
                    assert(job_start_spec(ga, 0u32, out.0, out.1));
                }
            }
            out
        },
        FileActionType::Randomize => {
            let (c, rv) = random_candidate(a.target.as_str());
            let cmd = JobCmd::Probe(c.clone());
            let s = JobState {
                target: a.target,
                mode: JobMode::Randomize,
                candidate: c,
                count: 0,
                phase: JobPhase::Probing,
                overwrote: false,
            };
            let out = (s, cmd);
            proof {
                assert(exists|rv2: u32| job_start_spec(ga, rv2, out.0, out.1)) by {
                    assert(job_start_spec(ga, rv, out.0, out.1));
                }
            }
            out
        },
    }
}

/// Advance a job by one event.
pub fn job_step(s: JobState, e: JobEvent) -> (r: JobStep)
    ensures
        exists|rv: u32| job_step_spec(s, e, rv, r),
{
    let ghost gs = s;
    let ghost ge = e;
    match s.phase {
        JobPhase::Probing => match e {
            JobEvent::Exists(ex) => match s.mode {
                JobMode::Overwrite => {
                    let cmd = JobCmd::DoRename { from: s.target.clone(), to: s.candidate.clone() };
                    let s2 = JobState { phase: JobPhase::Renaming, overwrote: ex, ..s };
                    let r = JobStep::Next(s2, cmd);
                    proof {
                        assert(job_step_spec(gs, ge, 0u32, r));
                    }
                    r
                },
                JobMode::Suffix => {
                    if !ex {
                        let cmd = JobCmd::DoRename {
                            from: s.target.clone(),
                            to: s.candidate.clone(),
                        };
                        let s2 = JobState { phase: JobPhase::Renaming, overwrote: false, ..s };
                        let r = JobStep::Next(s2, cmd);
                        proof {
                            assert(job_step_spec(gs, ge, 0u32, r));
                        }
                        r
                    } else if s.count == u64::MAX {
                        let r = JobStep::Done(Err(ActionError::Unknown));
                        proof {
                            assert(job_step_spec(gs, ge, 0u32, r));
                        }
                        r
                    } else {
                        let next = s.count + 1;
                        let mut c = s.candidate;
                        c.append(u64_to_decimal(next).as_str());
                        let cmd = JobCmd::Probe(c.clone());
                        let s2 = JobState {
                            candidate: c,
                            count: next,
                            phase: JobPhase::Probing,
                            overwrote: false,
                            ..s
                        };
                        let r = JobStep::Next(s2, cmd);
                        proof {
                            assert(job_step_spec(gs, ge, 0u32, r));
                        }
                        r
                    }
                },
                JobMode::Randomize => {
                    if !ex {
                        let cmd = JobCmd::DoRename {
                            from: s.target.clone(),
                            to: s.candidate.clone(),
                        };
                        let s2 = JobState { phase: JobPhase::Renaming, overwrote: false, ..s };
                        let r = JobStep::Next(s2, cmd);
                        proof {
                            assert(job_step_spec(gs, ge, 0u32, r));
                        }
                        r
                    } else if s.count == u64::MAX {
                        let r = JobStep::Done(Err(ActionError::Unknown));
                        proof {
                            assert(job_step_spec(gs, ge, 0u32, r));
                        }
                        r
                    } else {
                        let (c, rv) = random_candidate(s.target.as_str());
                        let cmd = JobCmd::Probe(c.clone());
                        let s2 = JobState {
                            candidate: c,
                            count: s.count + 1,
                            phase: JobPhase::Probing,
                            overwrote: false,
                            ..s
                        };
                        let r = JobStep::Next(s2, cmd);
                        proof {
                            assert(job_step_spec(gs, ge, rv, r));
                        }
                        r
                    }
                },
            },
            JobEvent::ProbeFailed(m) => {
                let r = JobStep::Done(Err(ActionError::Other(m)));
                proof {
                    assert(job_step_spec(gs, ge, 0u32, r));
                }
                r
            },
            _ => {
                let r = JobStep::Done(Err(ActionError::Unknown));
                proof {
                    assert(job_step_spec(gs, ge, 0u32, r));
                }
                r
            },
        },
        JobPhase::Renaming => match e {
            JobEvent::RenameOk => {
                let r = JobStep::Done(
                    Ok(
                        Report::Renamed {
                            from: s.target,
                            to: s.candidate,
                            overwrote: s.overwrote,
                        },
                    ),
                );
                proof {
                    assert(job_step_spec(gs, ge, 0u32, r));
                }
                r
            },
            JobEvent::RenameFailed(m) => {
                let r = JobStep::Done(Err(ActionError::Other(m)));
                proof {
                    assert(job_step_spec(gs, ge, 0u32, r));
                }
                r
            },
            _ => {
                let r = JobStep::Done(Err(ActionError::Unknown));
                proof {
                    assert(job_step_spec(gs, ge, 0u32, r));
                }
                r
            },
        },
    }
}

/// Non-destructive collision policy, at the decision level: under the
/// suffix and randomize modes, a step commands a rename only when the
/// event says its candidate is absent, and only onto that candidate.
pub proof fn lemma_step_nondestructive(s: JobState, e: JobEvent, rv: u32, r: JobStep)
    requires
        s.mode != JobMode::Overwrite,
        job_step_spec(s, e, rv, r),
    ensures
        match r {
            JobStep::Next(s2, cmd) => match cmd {
                JobCmd::DoRename { from, to } => e == JobEvent::Exists(false) && to@
                    == s.candidate@ && from@ == s.target@ && s.phase == JobPhase::Probing,
                _ => true,
            },
            _ => true,
        },
{
}


/// The paths of `m` whose text is at least `n` characters long. The suffix
/// policy's candidates strictly lengthen, so this set shrinks with every
/// collision: the policy terminates on any finite filesystem.
pub open spec fn longer_keys(m: Map<Seq<char>, FileTime>, n: nat) -> Set<Seq<char>> {
    m.dom().filter(|p: Seq<char>| p.len() >= n)
}

proof fn lemma_longer_keys_subset(m: Map<Seq<char>, FileTime>, n: nat)
    requires
        m.dom().finite(),
    ensures
        longer_keys(m, n).finite(),
        longer_keys(m, n).len() <= m.dom().len(),
        forall|p: Seq<char>| #[trigger] longer_keys(m, n).contains(p) <==> m.dom().contains(p)
            && p.len() >= n,
{
    assert(longer_keys(m, n).subset_of(m.dom()));
    lemma_len_subset(longer_keys(m, n), m.dom());
}

proof fn lemma_longer_keys_shrink(m: Map<Seq<char>, FileTime>, a: nat, b: nat, cand: Seq<char>)
    requires
        m.dom().finite(),
        a < b,
        m.dom().contains(cand),
        cand.len() == a,
    ensures
        longer_keys(m, b).len() < longer_keys(m, a).len(),
{
    lemma_longer_keys_subset(m, a);
    lemma_longer_keys_subset(m, b);
    assert(longer_keys(m, b).subset_of(longer_keys(m, a)));
    assert(longer_keys(m, a).contains(cand));
    assert(!longer_keys(m, b).contains(cand));
    longer_keys(m, b).lemma_subset_not_in_lt(longer_keys(m, a), cand);
}

/// The destination the suffix policy chooses against filesystem `fs0`: the
/// first candidate of the chain that does not exist. At most one path
/// satisfies this for given `n` and `fs0`.
pub open spec fn suffix_outcome(n: Seq<char>, fs0: Map<Seq<char>, FileTime>, to: Seq<char>) -> bool {
    exists|k: nat|
        to == nth_candidate(n, k) && !fs0.contains_key(nth_candidate(n, k)) && (forall|j: nat|
            j < k ==> fs0.contains_key(nth_candidate(n, j)))
}

impl FileAction {
    /// Execute this job against the modelled filesystem: compute the
    /// destination under the job's collision policy, then move the file.
    ///
    /// A job succeeds exactly when its source exists (a randomize job may in
    /// principle also exhaust its retry counter); an error leaves the
    /// filesystem untouched. A non-destructive job never removes or changes
    /// any file but its own source, and its destination did not exist at its
    /// probe. Every success moves the source to the reported destination,
    /// replacing at most what stood there, and reports whether it did.
    pub fn run(self, _ctx: &FileActionContext, fs: &mut FsModel) -> (r: Result<Report, ActionError>)
        requires
            old(fs).wf(),
        ensures
            final(fs).wf(),
            r is Err ==> final(fs)@ == old(fs)@,
            r is Ok ==> old(fs)@.contains_key(self.target@),
            !old(fs)@.contains_key(self.target@) ==> r is Err,
            self.action_type is Rename && old(fs)@.contains_key(self.target@) ==> r is Ok,
            self.action_type is Randomize && old(fs)@.contains_key(self.target@) ==> r is Ok || r
                == Err::<Report, ActionError>(ActionError::Unknown),
            self.action_type is Rename && r is Err ==> (r matches Err(e) && e is Other),
            !self.destructive() ==> forall|p: Seq<char>|
                old(fs)@.contains_key(p) && p != self.target@ ==> final(fs)@.contains_key(p)
                    && final(fs)@[p] == old(fs)@[p],
            r matches Ok(rep) ==> match rep {
                Report::Renamed { from, to, overwrote } => {
                    &&& from@ == self.target@
                    &&& final(fs)@ == old(fs)@.remove(from@).insert(to@, old(fs)@[from@])
                    &&& overwrote == old(fs)@.contains_key(to@)
                    &&& (!self.destructive() ==> !old(fs)@.contains_key(to@))
                    &&& match self.action_type {
                        FileActionType::Rename(n) => if self.overwrite {
                            to@ == n@
                        } else {
                            suffix_outcome(n@, old(fs)@, to@)
                        },
                        FileActionType::Randomize => exists|rv: u32|
                            to@ == with_base_name(self.target@, decimal_of(rv as nat)),
                    }
                },
                Report::Nothing => false,
            },
    {
        let ghost act = self;
        let ghost fs0 = old(fs)@;
        proof {
            fs.lemma_dom_finite();
        }
        let (s0, cmd0) = job_start(self);
        let mut s = s0;
        let mut cmd = cmd0;
        proof {
            let rv0 = choose|rv: u32| job_start_spec(act, rv, s, cmd);
            assert(job_start_spec(act, rv0, s, cmd));
            if s.mode == JobMode::Suffix {
                lemma_longer_keys_subset(fs0, s.candidate@.len() as nat);
            }
        }
        #[verifier::loop_isolation(false)]
        loop
            invariant
                fs.wf(),
                fs@ == fs0,
                fs0.dom().finite(),
                fs0.dom().len() <= usize::MAX,
                s.target@ == act.target@,
                s.mode == mode_of(act),
                s.phase == JobPhase::Probing ==> (cmd matches JobCmd::Probe(p) && p@
                    == s.candidate@),
                s.phase == JobPhase::Renaming ==> (cmd matches JobCmd::DoRename { from, to }
                    && from@ == act.target@ && to@ == s.candidate@),
                s.phase == JobPhase::Renaming && s.mode != JobMode::Overwrite
                    ==> !fs0.contains_key(s.candidate@) && s.overwrote == false,
                s.phase == JobPhase::Renaming && s.mode == JobMode::Overwrite ==> s.overwrote
                    == fs0.contains_key(s.candidate@),
                s.mode == JobMode::Overwrite ==> (act.action_type matches FileActionType::Rename(
                    n,
                ) && s.candidate@ == n@),
                s.mode == JobMode::Suffix ==> (act.action_type matches FileActionType::Rename(n)
                    && s.candidate@ == nth_candidate(n@, s.count as nat) && (forall|j: nat|
                    j < s.count ==> fs0.contains_key(nth_candidate(n@, j)))),
                s.mode == JobMode::Suffix ==> s.count as int + longer_keys(
                    fs0,
                    s.candidate@.len() as nat,
                ).len() <= fs0.dom().len(),
                s.mode == JobMode::Randomize ==> exists|rv: u32|
                    s.candidate@ == with_base_name(act.target@, decimal_of(rv as nat)),
            decreases
                (match s.mode {
                    JobMode::Suffix => longer_keys(fs0, s.candidate@.len() as nat).len() as int,
                    _ => 0int,
                }),
                u64::MAX - s.count,
                (match s.phase {
                    JobPhase::Probing => 1int,
                    JobPhase::Renaming => 0int,
                }),
        {
            let ghost s_pre = s;
            let ev = match cmd {
                JobCmd::Probe(p) => JobEvent::Exists(fs.probe(p.as_str())),
                JobCmd::DoRename { from, to } => {
                    match fs.rename(from.as_str(), to.as_str()) {
                        Ok(()) => JobEvent::RenameOk,
                        Err(()) => JobEvent::RenameFailed(
                            String::from_str("the source file does not exist"),
                        ),
                    }
                },
            };
            let ghost gev = ev;
            let step = job_step(s, ev);
            proof {
                let rv = choose|rv: u32| job_step_spec(s_pre, gev, rv, step);
                assert(job_step_spec(s_pre, gev, rv, step));
                if s_pre.phase == JobPhase::Probing && s_pre.mode == JobMode::Suffix && gev
                    matches JobEvent::Exists(true) {
                    assert(fs0.contains_key(s_pre.candidate@));
                    lemma_longer_keys_subset(fs0, s_pre.candidate@.len() as nat);
                    assert(longer_keys(fs0, s_pre.candidate@.len() as nat).contains(
                        s_pre.candidate@,
                    ));
                    assert(s_pre.count < u64::MAX);
                }
            }
            match step {
                JobStep::Next(s2, c2) => {
                    proof {
                        let rv = choose|rv: u32| job_step_spec(s_pre, gev, rv, JobStep::Next(
                            s2,
                            c2,
                        ));
                        if s_pre.mode == JobMode::Suffix && s2.phase == JobPhase::Probing {
                            // a collision: the candidate grew, the key set shrank
                            crate::text::lemma_decimal_of_len((s_pre.count + 1) as nat);
                            assert(s2.candidate@.len() > s_pre.candidate@.len());
                            lemma_longer_keys_shrink(
                                fs0,
                                s_pre.candidate@.len() as nat,
                                s2.candidate@.len() as nat,
                                s_pre.candidate@,
                            );
                            lemma_longer_keys_subset(fs0, s2.candidate@.len() as nat);
                        }
                    }
                    s = s2;
                    cmd = c2;
                },
                JobStep::Done(res) => {
                    proof {
                        if res is Err && act.action_type is Rename {
                            // a rename job's only failure is the rename call
                            // itself: suffix jobs never exhaust their counter
                            // (the key-set bound keeps the counter small), and
                            // the model's probes always answer
                            assert(res matches Err(e) && e is Other);
                        }
                        if res is Ok {
                            assert(gev == JobEvent::RenameOk);
                            assert(fs@ == fs0.remove(act.target@).insert(
                                s_pre.candidate@,
                                fs0[act.target@],
                            ));
                            if !act.destructive() {
                                assert(!fs0.contains_key(s_pre.candidate@));
                                assert forall|p: Seq<char>|
                                    fs0.contains_key(p) && p != act.target@ implies fs@
                                    .contains_key(p) && fs@[p] == fs0[p] by {
                                    assert(p != s_pre.candidate@);
                                }
                            }
                            if s_pre.mode == JobMode::Suffix {
                                assert(suffix_outcome(
                                    match act.action_type {
                                        FileActionType::Rename(n) => n@,
                                        _ => Seq::empty(),
                                    },
                                    fs0,
                                    s_pre.candidate@,
                                )) by {
                                    assert(s_pre.candidate@ == nth_candidate(
                                        match act.action_type {
                                            FileActionType::Rename(n) => n@,
                                            _ => Seq::empty(),
                                        },
                                        s_pre.count as nat,
                                    ));
                                }
                            }
                        }
                    }
                    return res;
                },
            }
        }
    }
}

} // verus!