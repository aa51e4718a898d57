//! The session registry and the decisions behind the three requests: an
//! offer is asked for, an answer comes in, a candidate trickles in.

use std::sync::mpsc::Receiver;
use vstd::prelude::*;

use crate::domain::{
    assembled_description, candidate_views, extracted_candidates, get_offer, process_sdp_answer,
    remote_candidates, IceCandidate, IceCandidateView, MAX_GATHERED_CANDIDATES,
};
use crate::error::NegotiationError;
use crate::number::{parse_unsigned, read_unsigned};
use crate::sdp::{has_doubled_terminator, sdp_accepts};
use crate::text::to_chars;

verus! {

/// The one slot that holds the active session, if there is one.
#[derive(Debug)]
pub struct AppState<S> {
    pub peer: Option<S>,
}

impl<S> AppState<S> {
    /// A registry without a session.
    pub fn new() -> (r: Self)
        ensures
            r.peer is None,
    {
        AppState { peer: None }
    }

    /// Whether a session is active.
    pub fn has_session(&self) -> (r: bool)
        ensures
            r == self.peer is Some,
    {
        self.peer.is_some()
    }

    /// Makes `session` the active session and hands back the one that it
    /// replaces, if there was one.
    pub fn replace(&mut self, session: S) -> (previous: Option<S>)
        ensures
            final(self).peer == Some(session),
            previous == old(self).peer,
    {
        let mut slot = Some(session);
        std::mem::swap(&mut self.peer, &mut slot);
        slot
    }

    /// Runs `f` on the active session. Without a session `f` is not run.
    pub fn with_current<T, F: FnOnce(&S) -> T>(&self, f: F) -> (r: Result<T, NegotiationError>)
        requires
            self.peer matches Some(s) ==> f.requires((&s,)),
        ensures
            match r {
                Ok(v) => self.peer matches Some(s) && f.ensures((&s,), v),
                Err(e) => self.peer is None && e == NegotiationError::NoActiveSession,
            },
    {
        match &self.peer {
            Some(s) => Ok(f(s)),
            None => Err(NegotiationError::NoActiveSession),
        }
    }
}

/// Reads the media-line index that a request names: an unsigned decimal
/// number that fits thirty-two bits.
pub fn media_line_index_of(text: &str) -> (r: Option<u32>)
    ensures
        r.is_some() == parse_unsigned(text@, u32::MAX as nat).is_some(),
        r matches Some(v) ==> parse_unsigned(text@, u32::MAX as nat) == Some(v as nat),
{
    let chars = to_chars(text);
    match read_unsigned(&chars, 0xffff_ffff) {
        Some(v) => Some(v as u32),
        None => None,
    }
}

/// Starts a new session with the offer made of the engine's local
/// description and the gathered candidates. Once the offer is made, the new
/// session replaces the active one; where no offer can be made, the registry
/// stays as it is.
pub fn request_offer<S>(
    state: &mut AppState<S>,
    session: S,
    raw_offer: &String,
    ice_receiver: Receiver<IceCandidate>,
) -> (r: Result<String, NegotiationError>)
    ensures
        match r {
            Ok(text) => final(state).peer == Some(session) && sdp_accepts(raw_offer@)
                && !has_doubled_terminator(text@) && exists|cs: Seq<IceCandidateView>|
                cs.len() <= MAX_GATHERED_CANDIDATES && text@ == #[trigger] assembled_description(
                    raw_offer@,
                    cs,
                ),
            Err(e) => *final(state) == *old(state) && !sdp_accepts(raw_offer@) && e
                == NegotiationError::MalformedSdp,
        },
{
    match get_offer(raw_offer, ice_receiver) {
        Ok(offer) => {
            state.replace(session);
            Ok(offer)
        },
        Err(e) => Err(e),
    }
}

/// Takes in the remote peer's answer for the active session: the candidates
/// that are to be applied once the description is set, all at the first
/// media line. Without an active session nothing is to be done and the
/// caller is told so; a description that fails the validation is refused.
pub fn provide_answer<S>(state: &AppState<S>, body: &String) -> (r: Result<
    Vec<IceCandidate>,
    NegotiationError,
>)
    ensures
        match r {
            Ok(cs) => state.peer is Some && sdp_accepts(body@) && candidate_views(cs@)
                == remote_candidates(extracted_candidates(body@)),
            Err(e) => if state.peer is None {
                e == NegotiationError::NoActiveSession
            } else {
                e == NegotiationError::MalformedSdp && !sdp_accepts(body@)
            },
        },
{
    if state.has_session() {
        process_sdp_answer(body)
    } else {
        Err(NegotiationError::NoActiveSession)
    }
}

/// Takes in a trickled candidate for the active session. The candidate is
/// passed on as it came, without being parsed; without an active
/// session nothing is to be done and the caller is told so.
pub fn add_ice_candidate<S>(state: &AppState<S>, mline: u32, body: String) -> (r: Result<
    IceCandidate,
    NegotiationError,
>)
    ensures
        match r {
            Ok(c) => state.peer is Some && c@ == (IceCandidateView {
                media_line_index: mline,
                candidate_str: body@,
            }),
            Err(e) => state.peer is None && e == NegotiationError::NoActiveSession,
        },
{
    if state.has_session() {
        Ok(IceCandidate::new(mline, body))
    } else {
        Err(NegotiationError::NoActiveSession)
    }
}

} // verus!
