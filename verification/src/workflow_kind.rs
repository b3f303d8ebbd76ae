//! The kinds of resumable file workflow. Saved plans name their kind by
//! these spellings, so a plan read back must name the kind it was saved with.
use crate::reply::AppError;
use crate::text::text_eq;
use vstd::prelude::*;

verus! {

#[derive(Debug, Clone, Copy, PartialEq, Eq, Structural)]
pub enum WorkflowKind {
    Registration,
    Normalize,
    Rebalance,
    Unregister,
    Relocate,
    IndexRebuild,
}

pub open spec fn workflow_kind_text(kind: WorkflowKind) -> Seq<char> {
    match kind {
        WorkflowKind::Registration => "registration"@,
        WorkflowKind::Normalize => "normalize"@,
        WorkflowKind::Rebalance => "rebalance"@,
        WorkflowKind::Unregister => "unregister"@,
        WorkflowKind::Relocate => "relocate"@,
        WorkflowKind::IndexRebuild => "index_rebuild"@,
    }
}

pub open spec fn parse_workflow_kind(text: Seq<char>) -> Option<WorkflowKind> {
    if text == "registration"@ {
        Some(WorkflowKind::Registration)
    } else if text == "normalize"@ {
        Some(WorkflowKind::Normalize)
    } else if text == "rebalance"@ {
        Some(WorkflowKind::Rebalance)
    } else if text == "unregister"@ {
        Some(WorkflowKind::Unregister)
    } else if text == "relocate"@ {
        Some(WorkflowKind::Relocate)
    } else if text == "index_rebuild"@ {
        Some(WorkflowKind::IndexRebuild)
    } else {
        None
    }
}

impl WorkflowKind {
    pub fn as_str(self) -> (res: &'static str)
        ensures
            res@ == workflow_kind_text(self),
    {
        match self {
            WorkflowKind::Registration => "registration",
            WorkflowKind::Normalize => "normalize",
            WorkflowKind::Rebalance => "rebalance",
            WorkflowKind::Unregister => "unregister",
            WorkflowKind::Relocate => "relocate",
            WorkflowKind::IndexRebuild => "index_rebuild",
        }
    }

    /// Reads a stored kind; any other spelling is a broken stored plan.
    pub fn parse(value: &str) -> (res: Result<WorkflowKind, AppError>)
        ensures
            match parse_workflow_kind(value@) {
                Some(kind) => res == Ok::<WorkflowKind, AppError>(kind),
                None => res matches Err(AppError::Invariant(context)) && context@
                    == "stored workflow kind"@,
            },
    {
        if text_eq(value, "registration") {
            Ok(WorkflowKind::Registration)
        } else if text_eq(value, "normalize") {
            Ok(WorkflowKind::Normalize)
        } else if text_eq(value, "rebalance") {
            Ok(WorkflowKind::Rebalance)
        } else if text_eq(value, "unregister") {
            Ok(WorkflowKind::Unregister)
        } else if text_eq(value, "relocate") {
            Ok(WorkflowKind::Relocate)
        } else if text_eq(value, "index_rebuild") {
            Ok(WorkflowKind::IndexRebuild)
        } else {
            Err(AppError::invariant_failed("stored workflow kind"))
        }
    }
}

/// Reading back a saved kind gives that kind.
pub proof fn lemma_workflow_kind_round_trip(kind: WorkflowKind)
    ensures
        parse_workflow_kind(workflow_kind_text(kind)) == Some(kind),
{
    reveal_strlit("registration");
    reveal_strlit("normalize");
    reveal_strlit("rebalance");
    reveal_strlit("unregister");
    reveal_strlit("relocate");
    reveal_strlit("index_rebuild");
    assert("normalize"@.len() != "registration"@.len());
    assert("rebalance"@.len() != "registration"@.len());
    assert("rebalance"@[0] != "normalize"@[0]);
    assert("unregister"@.len() != "registration"@.len());
    assert("unregister"@.len() != "normalize"@.len());
    assert("unregister"@.len() != "rebalance"@.len());
    assert("relocate"@.len() != "registration"@.len());
    assert("relocate"@.len() != "normalize"@.len());
    assert("relocate"@.len() != "rebalance"@.len());
    assert("relocate"@.len() != "unregister"@.len());
    assert("index_rebuild"@.len() != "registration"@.len());
    assert("index_rebuild"@.len() != "normalize"@.len());
    assert("index_rebuild"@.len() != "rebalance"@.len());
    assert("index_rebuild"@.len() != "unregister"@.len());
    assert("index_rebuild"@.len() != "relocate"@.len());
}

/// Distinct kinds are saved under distinct spellings.
pub proof fn lemma_workflow_kind_text_injective(a: WorkflowKind, b: WorkflowKind)
    requires
        workflow_kind_text(a) == workflow_kind_text(b),
    ensures
        a == b,
{
    lemma_workflow_kind_round_trip(a);
    lemma_workflow_kind_round_trip(b);
}

} // verus!
