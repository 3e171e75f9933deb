//! The HTTP service: who may ask, and the status that answers an operation.

use vstd::prelude::*;

verus! {

/// What every handler of the service works with.
#[derive(Clone)]
pub struct ServerState {
    /// The credential that every request must carry, if any.
    pub auth_token: Option<String>,
    /// The storage root, where it is not the default.
    pub local_path: Option<String>,
}

/// The status of a response to an operation that succeeded.
pub const STATUS_OK: u16 = 200;

/// The status of a response to a request without the right credential.
pub const STATUS_UNAUTHORIZED: u16 = 401;

/// The status of a response to an operation that failed.
pub const STATUS_FAILED: u16 = 500;

/// A request may pass: no credential is set, or the request carries an
/// `Authorization` header whose value is the credential, character by
/// character.
pub open spec fn may_pass(token: Option<Seq<char>>, header: Option<Seq<char>>) -> bool {
    match token {
        Some(expected) => header == Some(expected),
        None => true,
    }
}

/// The characters of a string that may be missing.
pub open spec fn text_of(value: Option<String>) -> Option<Seq<char>> {
    match value {
        Some(text) => Some(text@),
        None => None,
    }
}

/// The characters of a string slice that may be missing.
pub open spec fn slice_text_of(value: Option<&str>) -> Option<Seq<char>> {
    match value {
        Some(text) => Some(text@),
        None => None,
    }
}

/// Whether a request with this `Authorization` header may pass.
pub fn authorized(state: &ServerState, header: Option<&str>) -> (out: bool)
    ensures
        out == may_pass(text_of(state.auth_token), slice_text_of(header)),
{
    match &state.auth_token {
        Some(expected) => match header {
            Some(given) => given.to_owned() == *expected,
            None => false,
        },
        None => true,
    }
}

/// The status that answers a request: 401 where it may not pass, before the
/// store is touched; else 200 where the operation succeeded and 500 where
/// it failed, whatever the failure was.
pub fn status_for(passed: bool, succeeded: bool) -> (out: u16)
    ensures
        out == if !passed {
            STATUS_UNAUTHORIZED
        } else if succeeded {
            STATUS_OK
        } else {
            STATUS_FAILED
        },
{
    if !passed {
        STATUS_UNAUTHORIZED
    } else if succeeded {
        STATUS_OK
    } else {
        STATUS_FAILED
    }
}

} // verus!
