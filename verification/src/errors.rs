//! The failure taxonomy of the relay. Each failure kind is surfaced to
//! the orchestrator's caller as a distinct, inspectable variant; none is
//! downgraded to a bare string.

use vstd::prelude::*;

verus! {

/// Why an event produced no reply.
#[derive(Debug, Clone, Copy, PartialEq, Eq, Structural)]
pub enum RelayError {
    /// The store is unreachable, full, or holds malformed data.
    Persistence,
    /// The completion service was unreachable, timed out, or answered
    /// with a malformed candidate.
    Completion,
    /// The completion service answered well-formedly but with no usable
    /// candidate.
    NoReply,
    /// The system-prompt template failed to render.
    Template,
    /// A gateway metadata lookup failed.
    Gateway,
}

impl RelayError {
    /// A short description for logs.
    pub fn describe(&self) -> (r: &'static str)
        ensures
            self is Persistence ==> r@ == "conversation store failure"@,
            self is Completion ==> r@ == "completion service failure"@,
            self is NoReply ==> r@ == "no usable completion candidate"@,
            self is Template ==> r@ == "prompt template failure"@,
            self is Gateway ==> r@ == "gateway lookup failure"@,
    {
        match self {
            RelayError::Persistence => "conversation store failure",
            RelayError::Completion => "completion service failure",
            RelayError::NoReply => "no usable completion candidate",
            RelayError::Template => "prompt template failure",
            RelayError::Gateway => "gateway lookup failure",
        }
    }
}

} // verus!
