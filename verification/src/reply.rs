//! Answers to requests that the service does not grant.
use vstd::prelude::*;

verus! {

/// The status of a request that was granted.
pub const OK: u16 = 200;

/// The status of a request that makes no sense.
pub const BAD_REQUEST: u16 = 400;

/// The status of a request by someone who may not make it.
pub const UNAUTHORIZED: u16 = 401;

/// The status of a request for something that there is not.
pub const NOT_FOUND: u16 = 404;

/// The status of a request beyond a limit.
pub const TOO_MANY_REQUESTS: u16 = 429;

/// The status of a request that failed for reasons of the service.
pub const INTERNAL_SERVER_ERROR: u16 = 500;

/// An HTTP status, and a text for whoever sent the request.
#[derive(Debug, PartialEq)]
pub struct Reply {
    pub status: u16,
    pub message: String,
}

impl Reply {
    /// The reply has this status and this text.
    pub open spec fn says(self, status: u16, message: Seq<char>) -> bool {
        self.status == status && self.message@ == message
    }

    /// The reply with this status and this text.
    pub fn new(status: u16, message: &str) -> (r: Reply)
        ensures
            r.says(status, message@),
    {
        Reply { status, message: message.to_owned() }
    }
}

} // verus!
