//! What opening the engine decides: whether the first workspace is written
//! and what it holds, how each pending workflow job resumes, and what
//! becomes of each registered project.
use crate::ids::canonical_uuid_spec;
use crate::mutation::{fresh_id, no_randomness};
use crate::reply::AppError;
use crate::workflow_kind::WorkflowKind;
use crate::workspace::{opt_view, prefs_view, Preferences};
use vstd::prelude::*;

verus! {

/// The first workspace is written only when there is no workspace file and
/// none was ever written: a lost workspace is never rebuilt.
pub fn needs_initial_workspace(file_missing: bool, initialized: bool) -> (res: bool)
    ensures
        res == (file_missing && !initialized),
{
    file_missing && !initialized
}

/// A new workspace: a fresh instance ID, no projects, an empty focus and
/// these preferences.
pub struct InitialWorkspace {
    pub instance_id: String,
    pub preferences: Preferences,
}

/// The instance ID needs the system's randomness; without it no workspace
/// is made.
pub fn initial_workspace() -> (res: Result<InitialWorkspace, AppError>)
    ensures
        res matches Err(e) ==> no_randomness(e),
        res matches Ok(w) ==> {
            &&& canonical_uuid_spec(w.instance_id@, 4)
            &&& prefs_view(w.preferences) == ("Europe/Warsaw"@, "en"@, Some("monday"@), Some("focus"@))
        },
{
    let instance_id = match fresh_id() {
        Ok(id) => id,
        Err(e) => return Err(e),
    };
    let preferences = Preferences {
        timezone: "Europe/Warsaw".to_owned(),
        locale: "en".to_owned(),
        week_start: Some("monday".to_owned()),
        default_view: Some("focus".to_owned()),
    };
    assert(opt_view(preferences.week_start) == Some("monday"@));
    Ok(InitialWorkspace { instance_id, preferences })
}

/// How a pending job resumes at startup: an unregistration needs no project
/// store; any other job resumes inside its destination's store, and an index
/// rebuild refreshes the project's index when it completes.
pub enum JobRecovery {
    WithoutStore,
    InStore { refresh_index: bool },
}

pub fn job_recovery(kind: WorkflowKind) -> (res: JobRecovery)
    ensures
        kind == WorkflowKind::Unregister ==> res is WithoutStore,
        kind != WorkflowKind::Unregister ==> res == (JobRecovery::InStore { refresh_index: kind == WorkflowKind::IndexRebuild }),
{
    if kind == WorkflowKind::Unregister {
        JobRecovery::WithoutStore
    } else {
        JobRecovery::InStore { refresh_index: kind == WorkflowKind::IndexRebuild }
    }
}

/// What startup does next with a registered project.
pub enum ProjectStep {
    /// Refresh its projection now.
    Refresh,
    /// Nothing more; a service reconciles it in the background.
    Done,
    /// Mark it `PROJECT_UNAVAILABLE`.
    MarkUnavailable,
}

/// After its interrupted source writes are recovered, a project is
/// refreshed at once when startup is eager, and left to reconciliation
/// otherwise. A project whose store cannot be opened is unavailable.
pub fn project_step(store_opened: bool, eager: bool) -> (res: ProjectStep)
    ensures
        !store_opened ==> res is MarkUnavailable,
        store_opened && eager ==> res is Refresh,
        store_opened && !eager ==> res is Done,
{
    if !store_opened {
        ProjectStep::MarkUnavailable
    } else if eager {
        ProjectStep::Refresh
    } else {
        ProjectStep::Done
    }
}

/// A failed refresh leaves the project unavailable.
pub fn after_refresh(refreshed: bool) -> (res: ProjectStep)
    ensures
        refreshed ==> res is Done,
        !refreshed ==> res is MarkUnavailable,
{
    if refreshed {
        ProjectStep::Done
    } else {
        ProjectStep::MarkUnavailable
    }
}

} // verus!
