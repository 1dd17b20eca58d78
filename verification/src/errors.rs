//! The error taxonomy of the session commands.

use vstd::prelude::*;
use vstd::string::StringExecFns;

verus! {

/// Why a session command failed.
///
/// `NotFound`: the operation referenced an unknown (or already dead) session
/// id. `AlreadyExists`: an explicit creation-only call named an id that is
/// already live. `TransportFailure`: an OS or network call failed; wraps the
/// underlying message. `AuthFailure`: remote authentication was refused or
/// under-specified. `ResizeFailed`: the geometry change was rejected by the
/// transport.
#[derive(Debug)]
pub enum SessionError {
    NotFound,
    AlreadyExists,
    TransportFailure(String),
    AuthFailure(String),
    ResizeFailed,
}

impl SessionError {
    /// The descriptive text for each error, as the UI layer sees it.
    pub open spec fn spec_message(self) -> Seq<char> {
        match self {
            SessionError::NotFound => "session not found"@,
            SessionError::AlreadyExists => "session already exists with this id"@,
            SessionError::TransportFailure(m) => "transport failure: "@ + m@,
            SessionError::AuthFailure(m) => "authentication failed: "@ + m@,
            SessionError::ResizeFailed => "failed to resize session"@,
        }
    }

    /// Render the error as a descriptive string.
    pub fn message(&self) -> (r: String)
        ensures
            r@ == self.spec_message(),
    {
        match self {
            SessionError::NotFound => String::from_str("session not found"),
            SessionError::AlreadyExists => String::from_str("session already exists with this id"),
            SessionError::TransportFailure(m) => String::from_str("transport failure: ").concat(
                m.as_str(),
            ),
            SessionError::AuthFailure(m) => String::from_str("authentication failed: ").concat(
                m.as_str(),
            ),
            SessionError::ResizeFailed => String::from_str("failed to resize session"),
        }
    }
}

} // verus!
