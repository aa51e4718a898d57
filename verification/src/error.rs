//! The failures of a negotiation.

use vstd::prelude::*;

verus! {

/// Why an operation of the negotiation could not be carried out.
#[derive(Debug, Clone, Copy, PartialEq, Eq, Structural)]
pub enum NegotiationError {
    /// A session description failed the strict grammar validation.
    MalformedSdp,
    /// A candidate attribute could not be parsed.
    MalformedCandidate,
    /// The operation needs a session and none is active.
    NoActiveSession,
    /// The media engine failed to produce an offer or an answer.
    EngineNegotiationFailure,
    /// A bounded wait ran out.
    Timeout,
}

} // verus!
