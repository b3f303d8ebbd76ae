//! Decision core of the local planner's application engine: admission and
//! replay of idempotent commands, the invalidation event stream, projection
//! refresh planning, repair scheduling, authentication decisions and the
//! small parsers that guard every operational boundary.
use vstd::prelude::*;

pub mod auth;
pub mod text;
pub mod ids;
pub mod command_state;
pub mod reply;
pub mod workflow_kind;
pub mod repairs;
pub mod events;
pub mod projection;
pub mod git;
pub mod query;
pub mod workflow;
pub mod writer;
pub mod clock;
pub mod journal;
pub mod views;
pub mod source;
pub mod registry;
pub mod maintenance;
pub mod project_deletion;
pub mod tags;
pub mod card_deletion;
pub mod diagnostics;
pub mod mutation;
pub mod workspace;
pub mod history;
pub mod roots;
pub mod context;
pub mod counters;
pub mod registration;
pub mod focus;
pub mod source_deletion;
pub mod startup;
pub mod gantt;
pub mod catalog;
pub mod draft;
pub mod reconcile;
pub mod retention;

verus! {

} // verus!
