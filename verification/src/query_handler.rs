//! The answer to an anonymous query, from the outcome of executing it.
use vstd::prelude::*;

verus! {

/// The reject codes of the Internet Computer.
#[derive(Clone, Copy, Debug, PartialEq, Eq, Structural)]
pub enum RejectCode {
    SysFatal,
    SysTransient,
    DestinationInvalid,
    CanisterReject,
    CanisterError,
}

/// What a canister method produced.
#[derive(Clone, Debug, PartialEq, Eq)]
pub enum WasmResult {
    Reply(Vec<u8>),
    Reject(String),
}

/// An execution that failed: the reject code of the error and its description.
#[derive(Clone, Debug, PartialEq, Eq)]
pub struct UserError {
    pub reject_code: RejectCode,
    pub description: String,
}

/// The answer to an anonymous query.
#[derive(Clone, Debug, PartialEq, Eq)]
pub enum AnonymousQueryResponse {
    Replied { arg: Vec<u8> },
    Rejected { reject_code: RejectCode, reject_message: String },
}

/// A reply is answered with its bytes; a reject by the canister with the
/// canister reject code and its message; an execution error with the error's
/// reject code and description.
pub fn anonymous_query_response(result: Result<WasmResult, UserError>) -> (res: AnonymousQueryResponse)
    ensures
        match result {
            Ok(WasmResult::Reply(v)) => res matches AnonymousQueryResponse::Replied { arg } && arg@ == v@,
            Ok(WasmResult::Reject(m)) => res matches AnonymousQueryResponse::Rejected { reject_code, reject_message }
                && reject_code == RejectCode::CanisterReject && reject_message@ == m@,
            Err(e) => res matches AnonymousQueryResponse::Rejected { reject_code, reject_message }
                && reject_code == e.reject_code && reject_message@ == e.description@,
        },
{
    match result {
        Ok(WasmResult::Reply(v)) => AnonymousQueryResponse::Replied { arg: v },
        Ok(WasmResult::Reject(m)) => AnonymousQueryResponse::Rejected {
            reject_code: RejectCode::CanisterReject,
            reject_message: m,
        },
        Err(e) => AnonymousQueryResponse::Rejected {
            reject_code: e.reject_code,
            reject_message: e.description,
        },
    }
}

} // verus!
