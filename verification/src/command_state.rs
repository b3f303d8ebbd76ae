//! The persisted states of a journaled command. Their spellings are part of
//! replay compatibility: a stored row must read back as the state written.
use crate::reply::AppError;
use vstd::prelude::*;

verus! {

#[derive(Debug, Clone, Copy, PartialEq, Eq, Structural)]
pub enum CommandState {
    Prepared,
    Committed,
    Rejected,
    NeedsReview,
    Blocked,
}

/// The stored spelling of each state.
pub open spec fn command_state_text(state: CommandState) -> Seq<char> {
    match state {
        CommandState::Prepared => "prepared"@,
        CommandState::Committed => "committed"@,
        CommandState::Rejected => "rejected"@,
        CommandState::NeedsReview => "needs_review"@,
        CommandState::Blocked => "blocked"@,
    }
}

/// The state that a stored spelling names, if any.
pub open spec fn parse_command_state(text: Seq<char>) -> Option<CommandState> {
    if text == "prepared"@ {
        Some(CommandState::Prepared)
    } else if text == "committed"@ {
        Some(CommandState::Committed)
    } else if text == "rejected"@ {
        Some(CommandState::Rejected)
    } else if text == "needs_review"@ {
        Some(CommandState::NeedsReview)
    } else if text == "blocked"@ {
        Some(CommandState::Blocked)
    } else {
        None
    }
}

impl CommandState {
    pub fn as_str(self) -> (res: &'static str)
        ensures
            res@ == command_state_text(self),
    {
        match self {
            CommandState::Prepared => "prepared",
            CommandState::Committed => "committed",
            CommandState::Rejected => "rejected",
            CommandState::NeedsReview => "needs_review",
            CommandState::Blocked => "blocked",
        }
    }

    /// Reads a stored state. Any other spelling means the state database
    /// was not written by this journal.
    pub fn parse(value: &str) -> (res: Result<CommandState, AppError>)
        ensures
            match parse_command_state(value@) {
                Some(state) => res == Ok::<CommandState, AppError>(state),
                None => res matches Err(AppError::Invariant(context)) && context@
                    == "stored command state"@,
            },
    {
        proof {
            reveal_strlit("prepared");
            reveal_strlit("committed");
            reveal_strlit("rejected");
            reveal_strlit("needs_review");
            reveal_strlit("blocked");
        }
        if crate::text::text_eq(value, "prepared") {
            Ok(CommandState::Prepared)
        } else if crate::text::text_eq(value, "committed") {
            Ok(CommandState::Committed)
        } else if crate::text::text_eq(value, "rejected") {
            Ok(CommandState::Rejected)
        } else if crate::text::text_eq(value, "needs_review") {
            Ok(CommandState::NeedsReview)
        } else if crate::text::text_eq(value, "blocked") {
            Ok(CommandState::Blocked)
        } else {
            Err(AppError::invariant_failed("stored command state"))
        }
    }
}

/// Reading back a written state gives that state.
pub proof fn lemma_command_state_round_trip(state: CommandState)
    ensures
        parse_command_state(command_state_text(state)) == Some(state),
{
    reveal_strlit("prepared");
    reveal_strlit("committed");
    reveal_strlit("rejected");
    reveal_strlit("needs_review");
    reveal_strlit("blocked");
    assert("committed"@.len() != "prepared"@.len());
    assert("rejected"@[0] != "prepared"@[0]);
    assert("rejected"@.len() != "committed"@.len());
    assert("needs_review"@.len() != "prepared"@.len());
    assert("needs_review"@.len() != "committed"@.len());
    assert("needs_review"@.len() != "rejected"@.len());
    assert("blocked"@.len() != "prepared"@.len());
    assert("blocked"@.len() != "committed"@.len());
    assert("blocked"@.len() != "rejected"@.len());
    assert("blocked"@.len() != "needs_review"@.len());
}

/// Distinct states are stored under distinct spellings.
pub proof fn lemma_command_state_text_injective(a: CommandState, b: CommandState)
    requires
        command_state_text(a) == command_state_text(b),
    ensures
        a == b,
{
    lemma_command_state_round_trip(a);
    lemma_command_state_round_trip(b);
}

} // verus!
