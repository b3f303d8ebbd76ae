//! Replies and application errors as plain values. The transport renders a
//! reply body as the JSON envelope that clients receive.
use crate::command_state::CommandState;
use crate::ids::{canonical_uuid_spec, valid_request_id};
use vstd::prelude::*;

verus! {

/// How a stored body of a reply reads.
#[derive(Debug)]
pub enum ReplyBody {
    /// `{"api_version":"1","error":{"code","message","request_id"?}}`; the
    /// message repeats the code, and the request ID is present only when it
    /// is a valid request ID.
    Error { code: String, request_id: Option<String> },
    /// `{"api_version":"1","request_id","state"}`: the command is accepted
    /// but its outcome is not yet final.
    Progress { id: String, state: CommandState },
    /// A complete JSON body that the transport composed.
    Document { json: String },
}

#[derive(Debug)]
pub struct Reply {
    pub http_status: u16,
    pub body: ReplyBody,
}

/// Why a project store operation failed, as far as the engine distinguishes it.
#[derive(Debug)]
pub enum StoreFailure {
    /// An I/O error, by the name of its `std::io::ErrorKind`.
    Io { kind: String },
    /// A source or tree that fails a store rule, with the rule's code.
    Invalid { code: String },
    NormalizationRequired,
    /// A conditional write found bytes other than those it expected.
    Conflict,
    /// A source that fails domain validation.
    Domain,
}

#[derive(Debug)]
pub enum AppError {
    Rejected(Reply),
    Store(StoreFailure),
    /// A state or index database failure, with SQLite's extended result
    /// code where the database reported one.
    Database { sqlite_code: Option<i32> },
    LockPoisoned(String),
    StoredData { context: String },
    SourceValidation { context: String },
    Unavailable(String),
    Invariant(String),
}

impl Reply {
    /// An error reply. The request ID is echoed only when it is a valid
    /// request ID, so a malformed one never reaches a client or a log.
    pub fn error(status: u16, code: &str, request_id: &str) -> (res: Reply)
        ensures
            res.http_status == status,
            res.body matches ReplyBody::Error { code: c, request_id: r } && c@ == code@ && (if canonical_uuid_spec(request_id@, 7) {
                r matches Some(id) && id@ == request_id@
            } else {
                r is None
            }),
    {
        let id = if valid_request_id(request_id) {
            Some(request_id.to_owned())
        } else {
            None
        };
        Reply { http_status: status, body: ReplyBody::Error { code: code.to_owned(), request_id: id } }
    }

    /// A 202 reply for a command whose outcome is not yet final.
    pub fn progress(request_id: &str, state: CommandState) -> (res: Reply)
        ensures
            res.http_status == 202,
            res.body matches ReplyBody::Progress { id: r, state: s } && r@ == request_id@
                && s == state,
    {
        Reply {
            http_status: 202,
            body: ReplyBody::Progress { id: request_id.to_owned(), state },
        }
    }
}

/// The reply that a rejection carries when no request ID is known.
pub open spec fn is_rejection(error: AppError, status: u16, code: Seq<char>) -> bool {
    &&& error matches AppError::Rejected(reply)
    &&& reply.http_status == status
    &&& reply.body matches ReplyBody::Error { code: c, request_id: r }
    &&& c@ == code
    &&& r is None
}

impl AppError {
    /// A rejection with status and code, carrying no request ID.
    pub fn reject(status: u16, code: &str) -> (res: AppError)
        ensures
            is_rejection(res, status, code@),
    {
        proof {
            reveal_strlit("");
        }
        AppError::Rejected(Reply::error(status, code, ""))
    }

    pub fn invariant_failed(context: &str) -> (res: AppError)
        ensures
            res matches AppError::Invariant(c) && c@ == context@,
    {
        AppError::Invariant(context.to_owned())
    }

    pub fn stored(context: &str) -> (res: AppError)
        ensures
            res matches AppError::StoredData { context: c } && c@ == context@,
    {
        AppError::StoredData { context: context.to_owned() }
    }
}

} // verus!
