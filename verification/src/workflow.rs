//! Resumable file workflows. Each step names an approved directory by path
//! and identity, a path below it, and the bytes before and after. The
//! decisions here say what a step does with the bytes it finds, when a plan
//! may still be committed, and where a job resumes.
use crate::command_state::CommandState;
use crate::reply::{is_rejection, AppError, StoreFailure};
use crate::text::{same_bytes, text_eq};
use vstd::prelude::*;

verus! {

/// One planned file replacement.
pub struct Step {
    pub root: String,
    /// The approved directory's device and inode.
    pub identity: (u64, u64),
    /// Directory names below the root, then the file's name.
    pub path: Vec<String>,
    pub before: Option<Vec<u8>>,
    pub after: Vec<u8>,
}

/// An exact UTF-8 absolute path. No canonicalization changes a saved path's
/// spelling.
pub struct OperationalPath(String);

/// An absolute Unix path: it starts at the root and holds no NUL.
pub open spec fn is_operational_path(value: Seq<char>) -> bool {
    value.len() > 0 && value[0] == '/' && !value.contains('\0')
}

impl OperationalPath {
    pub closed spec fn text(self) -> Seq<char> {
        self.0@
    }

    /// Accepts an absolute path without NUL; anything else is refused with
    /// the reason that deserialization reports.
    pub fn new(value: &str) -> (res: Result<OperationalPath, &'static str>)
        ensures
            is_operational_path(value@) ==> (res matches Ok(p) && p.text() == value@),
            !is_operational_path(value@) ==> (res matches Err(e)
                && e@ == "workflow operational path must be an absolute UTF-8 path"@),
    {
        let n = value.unicode_len();
        if n == 0 || value.get_char(0) != '/' {
            return Err("workflow operational path must be an absolute UTF-8 path");
        }
        let mut i: usize = 0;
        while i < n
            invariant
                i <= n,
                n == value@.len(),
                forall|j: int| 0 <= j < i ==> value@[j] != '\0',
            decreases n - i,
        {
            if value.get_char(i) == '\0' {
                assert(value@.contains('\0')) by {
                    assert(value@[i as int] == '\0');
                }
                return Err("workflow operational path must be an absolute UTF-8 path");
            }
            i = i + 1;
        }
        assert(!value@.contains('\0'));
        Ok(OperationalPath(value.to_owned()))
    }

    pub fn as_str(&self) -> (res: &str)
        ensures
            res@ == self.text(),
    {
        self.0.as_str()
    }
}

/// What applying a step does with the bytes it finds at its path.
#[derive(Debug, Clone, Copy, PartialEq, Eq, Structural)]
pub enum StepAction {
    /// The bytes are already the step's result; only make them durable.
    Resync,
    /// The bytes are as planned; replace them conditionally.
    Replace,
}

pub open spec fn opt_bytes(o: Option<Vec<u8>>) -> Option<Seq<u8>> {
    match o {
        Some(b) => Some(b@),
        None => None,
    }
}

fn same_opt_bytes(a: &Option<Vec<u8>>, b: &Option<Vec<u8>>) -> (res: bool)
    ensures
        res == (opt_bytes(*a) == opt_bytes(*b)),
{
    match (a, b) {
        (None, None) => true,
        (Some(x), Some(y)) => same_bytes(x.as_slice(), y.as_slice()),
        _ => false,
    }
}

impl Step {
    /// Decides what applying this step does, given the bytes now at its
    /// path: done already, replace as planned, or `409
    /// WORKFLOW_SOURCE_CHANGED` when someone else changed them.
    pub fn action(&self, actual: &Option<Vec<u8>>) -> (res: Result<StepAction, AppError>)
        ensures
            opt_bytes(*actual) == Some(self.after@) ==> res == Ok::<StepAction, AppError>(StepAction::Resync),
            opt_bytes(*actual) != Some(self.after@) && opt_bytes(*actual) == opt_bytes(self.before)
                ==> res == Ok::<StepAction, AppError>(StepAction::Replace),
            opt_bytes(*actual) != Some(self.after@) && opt_bytes(*actual) != opt_bytes(self.before)
                ==> (res matches Err(e) && is_rejection(e, 409, "WORKFLOW_SOURCE_CHANGED"@)),
    {
        let done = match actual {
            Some(bytes) => same_bytes(bytes.as_slice(), self.after.as_slice()),
            None => false,
        };
        if done {
            return Ok(StepAction::Resync);
        }
        if !same_opt_bytes(actual, &self.before) {
            return Err(AppError::reject(409, "WORKFLOW_SOURCE_CHANGED"));
        }
        Ok(StepAction::Replace)
    }

    /// A step that already ran must have left its result in place.
    pub fn verify_done(&self, actual: &Option<Vec<u8>>) -> (res: Result<(), AppError>)
        ensures
            opt_bytes(*actual) == Some(self.after@) ==> res is Ok,
            opt_bytes(*actual) != Some(self.after@) ==> (res matches Err(e) && is_rejection(e, 409, "WORKFLOW_SOURCE_CHANGED"@)),
    {
        let done = match actual {
            Some(bytes) => same_bytes(bytes.as_slice(), self.after.as_slice()),
            None => false,
        };
        if done {
            Ok(())
        } else {
            Err(AppError::reject(409, "WORKFLOW_SOURCE_CHANGED"))
        }
    }

    /// The file's name, which is the last element of the path; a step
    /// without a path is an invariant failure.
    pub fn file_name(&self) -> (res: Result<&String, AppError>)
        ensures
            self.path@.len() > 0 ==> (res matches Ok(n) && *n == self.path@.last()),
            self.path@.len() == 0 ==> (res matches Err(e) && e matches AppError::Invariant(c) && c@ == "workflow step path"@),
    {
        if self.path.len() == 0 {
            return Err(AppError::invariant_failed("workflow step path"));
        }
        Ok(&self.path[self.path.len() - 1])
    }
}

/// The directory a step opens must still be the approved one.
pub fn check_identity(actual: (u64, u64), approved: (u64, u64)) -> (res: Result<(), AppError>)
    ensures
        actual == approved ==> res is Ok,
        actual != approved ==> (res matches Err(e) && is_rejection(e, 409, "APPROVED_DIRECTORY_CHANGED"@)),
{
    if actual.0 != approved.0 || actual.1 != approved.1 {
        Err(AppError::reject(409, "APPROVED_DIRECTORY_CHANGED"))
    } else {
        Ok(())
    }
}

/// Why a plan can no longer be committed, checked in this order: it has
/// expired, its project awaits recovery, what it read has changed, or a job
/// was already started from it. Each is a `409` with this code.
pub open spec fn commit_refusal(now: i64, expires_at: i64, project_pending: bool, unchanged: bool, has_job: bool) -> Option<Seq<char>> {
    if now >= expires_at {
        Some("PLAN_EXPIRED"@)
    } else if project_pending {
        Some("PROJECT_RECOVERY_REQUIRED"@)
    } else if !unchanged {
        Some("PLAN_STALE"@)
    } else if has_job {
        Some("PLAN_ALREADY_COMMITTED"@)
    } else {
        None
    }
}

/// The code with which a plan's commit is refused, if it is. A plan is
/// committed at most once: one that already has a job is refused.
pub fn commit_check(now: i64, expires_at: i64, project_pending: bool, unchanged: bool, has_job: bool) -> (res: Option<&'static str>)
    ensures
        match res {
            Some(c) => commit_refusal(now, expires_at, project_pending, unchanged, has_job) == Some(c@),
            None => commit_refusal(now, expires_at, project_pending, unchanged, has_job) is None,
        },
{
    if now >= expires_at {
        Some("PLAN_EXPIRED")
    } else if project_pending {
        Some("PROJECT_RECOVERY_REQUIRED")
    } else if !unchanged {
        Some("PLAN_STALE")
    } else if has_job {
        Some("PLAN_ALREADY_COMMITTED")
    } else {
        None
    }
}

/// What a resumed job does at position `at` of a plan of `steps` steps,
/// of which the first `next` are recorded as run.
#[derive(Debug, Clone, Copy, PartialEq, Eq, Structural)]
pub enum JobAction {
    /// Check that an already-run step's result is still in place.
    Verify(usize),
    /// Apply the step, then record one more step as run.
    Apply(usize),
    /// Run the completion, then mark the job done and its command committed.
    Complete,
}

pub open spec fn job_action_spec(at: int, next: int, steps: int) -> JobAction {
    if at < next {
        JobAction::Verify(at as usize)
    } else if at < steps {
        JobAction::Apply(at as usize)
    } else {
        JobAction::Complete
    }
}

pub fn job_action(at: usize, next: usize, steps: usize) -> (res: JobAction)
    requires
        next <= steps,
        at <= steps,
    ensures
        res == job_action_spec(at as int, next as int, steps as int),
{
    if at < next {
        JobAction::Verify(at)
    } else if at < steps {
        JobAction::Apply(at)
    } else {
        JobAction::Complete
    }
}

/// Where a job goes after the action at `at`.
#[derive(Debug, Clone, Copy, PartialEq, Eq, Structural)]
pub enum JobOutcome {
    /// Go on with the action at this position.
    Next(usize),
    /// The job stops; its command takes this state.
    Stopped(CommandState),
    /// The job is done and its command committed.
    Done,
}

/// After the action at `at`: a failed step leaves the command for review
/// or blocked, as `failure_state` says; a failed completion blocks it; a
/// step that succeeded leads to the next position; a completion that
/// succeeded ends the job.
pub fn job_after(at: usize, steps: usize, error: Option<&AppError>) -> (res: JobOutcome)
    requires
        at <= steps,
    ensures
        at < steps ==> (error matches Some(e) ==> res == JobOutcome::Stopped(if needs_review(*e) {
            CommandState::NeedsReview
        } else {
            CommandState::Blocked
        })),
        error is Some && at == steps ==> res == JobOutcome::Stopped(CommandState::Blocked),
        error is None && at < steps ==> res == JobOutcome::Next((at + 1) as usize),
        error is None && at == steps ==> res == JobOutcome::Done,
{
    match error {
        Some(e) => if at < steps {
            JobOutcome::Stopped(failure_state(e))
        } else {
            JobOutcome::Stopped(CommandState::Blocked)
        },
        None => if at < steps {
            JobOutcome::Next(at + 1)
        } else {
            JobOutcome::Done
        },
    }
}

/// The actions of a job run from position `at` on when nothing fails.
pub open spec fn job_run(at: int, next: int, steps: int) -> Seq<JobAction>
    decreases steps - at,
{
    if at >= steps {
        seq![JobAction::Complete]
    } else {
        seq![job_action_spec(at, next, steps)] + job_run(at + 1, next, steps)
    }
}

/// A resumed job, when nothing fails, checks each step recorded as run, in
/// order, then applies each remaining step once, in order, then completes
/// once.
pub proof fn lemma_job_runs_in_order(next: int, steps: int)
    requires
        0 <= next <= steps,
    ensures
        job_run(0, next, steps).len() == steps + 1,
        forall|i: int| 0 <= i < next ==> job_run(0, next, steps)[i] == JobAction::Verify(i as usize),
        forall|i: int| next <= i < steps ==> job_run(0, next, steps)[i] == JobAction::Apply(i as usize),
        job_run(0, next, steps)[steps] == JobAction::Complete,
{
    lemma_job_run_from(0, next, steps);
}

proof fn lemma_job_run_from(at: int, next: int, steps: int)
    requires
        0 <= at <= steps,
        0 <= next <= steps,
    ensures
        job_run(at, next, steps).len() == steps - at + 1,
        forall|i: int| 0 <= i < steps - at ==> #[trigger] job_run(at, next, steps)[i] == job_action_spec(at + i, next, steps),
        job_run(at, next, steps)[steps - at] == JobAction::Complete,
    decreases steps - at,
{
    if at < steps {
        lemma_job_run_from(at + 1, next, steps);
        let rest = job_run(at + 1, next, steps);
        let all = job_run(at, next, steps);
        assert(all == seq![job_action_spec(at, next, steps)] + rest);
        assert forall|i: int| 0 <= i < steps - at implies #[trigger] all[i] == job_action_spec(at + i, next, steps) by {
            if i > 0 {
                assert(all[i] == rest[i - 1]);
            }
        }
        assert(all[steps - at] == rest[steps - at - 1]);
    }
}

/// Where a job resumes.
#[derive(Debug, Clone, Copy, PartialEq, Eq, Structural)]
pub enum Resume {
    /// The job already finished.
    Done,
    /// Steps before this index ran and are verified; the rest are applied.
    From(usize),
}

/// Decides where a job in `state`, with `next` steps recorded as run, resumes
/// in a plan of `steps` steps. A job that needs review is `409
/// WORKFLOW_NEEDS_REVIEW`; a recorded step count outside the plan is an
/// invariant failure.
pub fn resume_point(state: &str, next: i64, steps: usize) -> (res: Result<Resume, AppError>)
    ensures
        state@ == "done"@ ==> res == Ok::<Resume, AppError>(Resume::Done),
        state@ != "done"@ && state@ == "needs_review"@ ==> (res matches Err(e) && is_rejection(e, 409, "WORKFLOW_NEEDS_REVIEW"@)),
        state@ != "done"@ && state@ != "needs_review"@ ==> if 0 <= next <= steps {
            res == Ok::<Resume, AppError>(Resume::From(next as usize))
        } else {
            res matches Err(e) && e matches AppError::Invariant(c) && c@ == "workflow job progress"@
        },
{
    if text_eq(state, "done") {
        return Ok(Resume::Done);
    }
    if text_eq(state, "needs_review") {
        return Err(AppError::reject(409, "WORKFLOW_NEEDS_REVIEW"));
    }
    if next < 0 || next as u64 > steps as u64 {
        return Err(AppError::invariant_failed("workflow job progress"));
    }
    Ok(Resume::From(next as usize))
}

/// Failures that a person must look at: refusals, and store failures that
/// say the tree or the bytes are not as expected.
pub open spec fn needs_review(error: AppError) -> bool {
    ||| error is Rejected
    ||| error matches AppError::Store(StoreFailure::Invalid { .. })
    ||| error matches AppError::Store(StoreFailure::Conflict)
}

/// The state a command takes when a step of its job fails: review for
/// refusals and conflicts, blocked for everything else, which a retry may
/// clear.
pub fn failure_state(error: &AppError) -> (res: CommandState)
    ensures
        res == (if needs_review(*error) {
            CommandState::NeedsReview
        } else {
            CommandState::Blocked
        }),
{
    match error {
        AppError::Rejected(_) => CommandState::NeedsReview,
        AppError::Store(StoreFailure::Invalid { .. }) => CommandState::NeedsReview,
        AppError::Store(StoreFailure::Conflict) => CommandState::NeedsReview,
        _ => CommandState::Blocked,
    }
}

/// Where a plan operates: its destination and, for a move or removal, the
/// path it leaves. What the plan shows besides is presentation only.
pub struct PlanLocation {
    pub destination: OperationalPath,
    pub previous: Option<OperationalPath>,
}

/// Whether some presentation field names an operational path.
pub open spec fn names_path(keys: Seq<Seq<char>>) -> bool {
    exists|i: int| 0 <= i < keys.len() && (#[trigger] keys[i] == "display_path"@ || keys[i] == "previous_path"@)
}

impl PlanLocation {
    /// A plan location from its paths and the field names of its
    /// presentation, which must be a JSON object that names no operational
    /// path; each path must be an operational path.
    pub fn new(destination: &str, previous: Option<&str>, presentation_is_object: bool, keys: &Vec<String>) -> (res: Result<PlanLocation, AppError>)
        ensures
            !presentation_is_object || names_path(keys@.map_values(|k: String| k@)) ==> (res matches Err(e) && e matches AppError::Invariant(c)
                && c@ == "workflow presentation cannot define operational paths"@),
            presentation_is_object && !names_path(keys@.map_values(|k: String| k@)) && !is_operational_path(destination@) ==> (res matches Err(e)
                && e matches AppError::Invariant(c) && c@ == "workflow destination path"@),
            presentation_is_object && !names_path(keys@.map_values(|k: String| k@)) && is_operational_path(destination@) ==> match previous {
                Some(p) => if is_operational_path(p@) {
                    res matches Ok(l) && l.destination.text() == destination@ && (l.previous matches Some(q) && q.text() == p@)
                } else {
                    res matches Err(e) && e matches AppError::Invariant(c) && c@ == "workflow previous path"@
                },
                None => res matches Ok(l) && l.destination.text() == destination@ && l.previous is None,
            },
    {
        let ghost ks = keys@.map_values(|k: String| k@);
        if !presentation_is_object {
            return Err(AppError::invariant_failed("workflow presentation cannot define operational paths"));
        }
        let mut i: usize = 0;
        while i < keys.len()
            invariant
                i <= keys@.len(),
                ks == keys@.map_values(|k: String| k@),
                forall|j: int| 0 <= j < i ==> !(#[trigger] ks[j] == "display_path"@ || ks[j] == "previous_path"@),
            decreases keys@.len() - i,
        {
            if text_eq(keys[i].as_str(), "display_path") || text_eq(keys[i].as_str(), "previous_path") {
                assert(ks[i as int] == keys@[i as int]@);
                return Err(AppError::invariant_failed("workflow presentation cannot define operational paths"));
            }
            assert(ks[i as int] == keys@[i as int]@);
            i = i + 1;
        }
        let destination = match OperationalPath::new(destination) {
            Ok(p) => p,
            Err(_) => return Err(AppError::invariant_failed("workflow destination path")),
        };
        let previous = match previous {
            None => None,
            Some(p) => match OperationalPath::new(p) {
                Ok(q) => Some(q),
                Err(_) => return Err(AppError::invariant_failed("workflow previous path")),
            },
        };
        Ok(PlanLocation { destination, previous })
    }

    /// The location of a registration plan: a destination only.
    pub fn registration(destination: &str, presentation_is_object: bool, keys: &Vec<String>) -> (res: Result<PlanLocation, AppError>)
        ensures
            match (PlanLocation::new_spec(destination@, None, presentation_is_object, keys@.map_values(|k: String| k@))) {
                Ok(()) => res matches Ok(l) && l.destination.text() == destination@ && l.previous is None,
                Err(c) => res matches Err(e) && e matches AppError::Invariant(t) && t@ == c,
            },
    {
        PlanLocation::new(destination, None, presentation_is_object, keys)
    }

    /// The location of a maintenance plan: its destination and the path it
    /// leaves.
    pub fn maintenance(destination: &str, previous: &str, presentation_is_object: bool, keys: &Vec<String>) -> (res: Result<PlanLocation, AppError>)
        ensures
            match (PlanLocation::new_spec(destination@, Some(previous@), presentation_is_object, keys@.map_values(|k: String| k@))) {
                Ok(()) => res matches Ok(l) && l.destination.text() == destination@ && (l.previous matches Some(q) && q.text() == previous@),
                Err(c) => res matches Err(e) && e matches AppError::Invariant(t) && t@ == c,
            },
    {
        PlanLocation::new(destination, Some(previous), presentation_is_object, keys)
    }

    /// Which check a location fails first, if any.
    pub open spec fn new_spec(destination: Seq<char>, previous: Option<Seq<char>>, presentation_is_object: bool, keys: Seq<Seq<char>>) -> Result<(), Seq<char>> {
        if !presentation_is_object || names_path(keys) {
            Err("workflow presentation cannot define operational paths"@)
        } else if !is_operational_path(destination) {
            Err("workflow destination path"@)
        } else if previous matches Some(p) && !is_operational_path(p) {
            Err("workflow previous path"@)
        } else {
            Ok(())
        }
    }

    /// The path a maintenance plan leaves; one without is an invariant
    /// failure.
    pub fn previous_path(&self) -> (res: Result<&str, AppError>)
        ensures
            match self.previous {
                Some(p) => res matches Ok(s) && s@ == p.text(),
                None => res matches Err(e) && e matches AppError::Invariant(c) && c@ == "maintenance previous path"@,
            },
    {
        match &self.previous {
            Some(p) => Ok(p.as_str()),
            None => Err(AppError::invariant_failed("maintenance previous path")),
        }
    }
}

} // verus!
