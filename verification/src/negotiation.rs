//! The state machine of one negotiation. It takes in what happens outside,
//! one event at a time, and says what is to be done next; waiting and
//! talking to the media engine are left to the caller.

use vstd::prelude::*;

use crate::domain::{
    assemble_description, assembled_description, candidate_views, extracted_candidates,
    process_sdp_answer, remote_candidates, IceCandidate, IceCandidateView,
};
use crate::error::NegotiationError;
use crate::sdp::sdp_accepts;

verus! {

/// How often the local description is asked for again before a negotiation
/// is given up.
pub const MAX_DESCRIPTION_POLLS: usize = 5000;

/// The pause before the local description is asked for again, in
/// milliseconds.
pub const DESCRIPTION_POLL_MILLIS: u64 = 1;

/// Where a negotiation stands.
#[derive(Debug, Clone, Copy, PartialEq, Eq, Structural)]
pub enum Phase {
    Idle,
    OfferRequested,
    RemoteOfferApplied,
    AnswerRequested,
    AwaitingLocalDescription,
    GatheringCandidates,
    OfferReady,
    AnswerReady,
    Failed,
}

/// What happened outside: a request of the caller, or a report of the media
/// engine.
#[derive(Debug, Clone, PartialEq, Eq)]
pub enum Event {
    /// The caller asks for an offer.
    RequestOffer,
    /// The engine reports that the session needs to be negotiated anew.
    RenegotiationNeeded,
    /// The caller hands in the remote peer's offer.
    RemoteOffer(String),
    /// The remote description and its candidates were handed to the engine.
    RemoteApplied,
    /// The engine has produced the offer or the answer that it was asked for.
    EngineCompleted,
    /// The engine reports that it could not.
    EngineFailed,
    /// The local description was read: its text, or nothing if it is not set yet.
    DescriptionPolled(Option<String>),
    /// The engine discovered a local candidate.
    CandidateArrived(IceCandidate),
    /// The quiescence time passed without a new candidate.
    Quiescent,
}

/// What is to be done outside next.
#[derive(Debug, Clone, PartialEq, Eq)]
pub enum Action {
    /// Nothing: the event does not concern the negotiation as it stands.
    Nothing,
    CreateOffer,
    /// Set the remote description, then apply each candidate to the engine.
    ApplyRemote { description: String, candidates: Vec<IceCandidate> },
    CreateAnswer,
    /// Read the local description and report it.
    PollLocalDescription,
    /// Wait for the next candidate, or for the quiescence time to pass.
    AwaitCandidate,
    /// Hand the finished description to the caller.
    Deliver(String),
    /// Report the failure to the caller.
    Fail(NegotiationError),
}

/// One negotiation: an offer or an answer on its way from the request to
/// the finished description.
#[derive(Debug, Clone, PartialEq, Eq)]
pub struct Negotiation {
    pub phase: Phase,
    /// Whether this negotiation answers a remote offer.
    pub answering: bool,
    /// How many more times the local description may be asked for again.
    pub polls_left: usize,
    /// How many candidates are gathered at most.
    pub max_candidates: usize,
    /// The local description, once it is known.
    pub description: String,
    /// The candidates gathered so far.
    pub gathered: Vec<IceCandidate>,
}

/// The mathematical value of an `Event`.
pub ghost enum EventView {
    RequestOffer,
    RenegotiationNeeded,
    RemoteOffer(Seq<char>),
    RemoteApplied,
    EngineCompleted,
    EngineFailed,
    DescriptionPolled(Option<Seq<char>>),
    CandidateArrived(IceCandidateView),
    Quiescent,
}

/// The mathematical value of an `Action`.
pub ghost enum ActionView {
    Nothing,
    CreateOffer,
    ApplyRemote { description: Seq<char>, candidates: Seq<IceCandidateView> },
    CreateAnswer,
    PollLocalDescription,
    AwaitCandidate,
    Deliver(Seq<char>),
    Fail(NegotiationError),
}

/// The mathematical value of a `Negotiation`.
pub ghost struct NegotiationView {
    pub phase: Phase,
    pub answering: bool,
    pub polls_left: usize,
    pub max_candidates: usize,
    pub description: Seq<char>,
    pub gathered: Seq<IceCandidateView>,
}

impl View for Event {
    type V = EventView;

    open spec fn view(&self) -> EventView {
        match self {
            Event::RequestOffer => EventView::RequestOffer,
            Event::RenegotiationNeeded => EventView::RenegotiationNeeded,
            Event::RemoteOffer(text) => EventView::RemoteOffer(text@),
            Event::RemoteApplied => EventView::RemoteApplied,
            Event::EngineCompleted => EventView::EngineCompleted,
            Event::EngineFailed => EventView::EngineFailed,
            Event::DescriptionPolled(Some(text)) => EventView::DescriptionPolled(Some(text@)),
            Event::DescriptionPolled(None) => EventView::DescriptionPolled(None),
            Event::CandidateArrived(c) => EventView::CandidateArrived(c@),
            Event::Quiescent => EventView::Quiescent,
        }
    }
}

impl View for Action {
    type V = ActionView;

    open spec fn view(&self) -> ActionView {
        match self {
            Action::Nothing => ActionView::Nothing,
            Action::CreateOffer => ActionView::CreateOffer,
            Action::ApplyRemote { description, candidates } => ActionView::ApplyRemote {
                description: description@,
                candidates: candidate_views(candidates@),
            },
            Action::CreateAnswer => ActionView::CreateAnswer,
            Action::PollLocalDescription => ActionView::PollLocalDescription,
            Action::AwaitCandidate => ActionView::AwaitCandidate,
            Action::Deliver(text) => ActionView::Deliver(text@),
            Action::Fail(e) => ActionView::Fail(*e),
        }
    }
}

impl View for Negotiation {
    type V = NegotiationView;

    open spec fn view(&self) -> NegotiationView {
        NegotiationView {
            phase: self.phase,
            answering: self.answering,
            polls_left: self.polls_left,
            max_candidates: self.max_candidates,
            description: self.description@,
            gathered: candidate_views(self.gathered@),
        }
    }
}

/// A negotiation that has delivered its result or has failed.
pub open spec fn is_terminal(p: Phase) -> bool {
    p == Phase::OfferReady || p == Phase::AnswerReady || p == Phase::Failed
}

/// The negotiation as it starts: idle, with its two bounds.
pub open spec fn initial(polls: usize, max_candidates: usize) -> NegotiationView {
    NegotiationView {
        phase: Phase::Idle,
        answering: false,
        polls_left: polls,
        max_candidates,
        description: Seq::empty(),
        gathered: Seq::empty(),
    }
}

/// The negotiation given up, and the failure reported.
pub open spec fn failed(s: NegotiationView, e: NegotiationError) -> (NegotiationView, ActionView) {
    (NegotiationView { phase: Phase::Failed, ..s }, ActionView::Fail(e))
}

/// The end of the gathering: the candidates are inserted into the local
/// description and the result is delivered. A local description that fails
/// the validation makes the negotiation fail instead.
pub open spec fn finished(s: NegotiationView) -> (NegotiationView, ActionView) {
    if sdp_accepts(s.description) {
        (
            NegotiationView {
                phase: if s.answering {
                    Phase::AnswerReady
                } else {
                    Phase::OfferReady
                },
                ..s
            },
            ActionView::Deliver(assembled_description(s.description, s.gathered)),
        )
    } else {
        failed(s, NegotiationError::MalformedSdp)
    }
}

/// The state after an event, and what is to be done next.
///
/// An idle negotiation begins with a request for an offer, with the
/// engine's own call for a negotiation, which is answered like such a
/// request, or with a remote offer. Every other event is taken only in the
/// phase that waits for it.
pub open spec fn step_spec(s: NegotiationView, e: EventView) -> (NegotiationView, ActionView) {
    match s.phase {
        Phase::Idle => match e {
            EventView::RequestOffer | EventView::RenegotiationNeeded => (
                NegotiationView { phase: Phase::OfferRequested, answering: false, ..s },
                ActionView::CreateOffer,
            ),
            EventView::RemoteOffer(text) => if sdp_accepts(text) {
                (
                    NegotiationView { phase: Phase::RemoteOfferApplied, answering: true, ..s },
                    ActionView::ApplyRemote {
                        description: text,
                        candidates: remote_candidates(extracted_candidates(text)),
                    },
                )
            } else {
                failed(s, NegotiationError::MalformedSdp)
            },
            _ => (s, ActionView::Nothing),
        },
        Phase::RemoteOfferApplied => match e {
            EventView::RemoteApplied => (
                NegotiationView { phase: Phase::AnswerRequested, ..s },
                ActionView::CreateAnswer,
            ),
            EventView::EngineFailed => failed(s, NegotiationError::EngineNegotiationFailure),
            _ => (s, ActionView::Nothing),
        },
        Phase::OfferRequested | Phase::AnswerRequested => match e {
            EventView::EngineCompleted => (
                NegotiationView { phase: Phase::AwaitingLocalDescription, ..s },
                ActionView::PollLocalDescription,
            ),
            EventView::EngineFailed => failed(s, NegotiationError::EngineNegotiationFailure),
            _ => (s, ActionView::Nothing),
        },
        Phase::AwaitingLocalDescription => match e {
            EventView::DescriptionPolled(polled) => if polled is Some && polled.unwrap().len() > 0 {
                let known = NegotiationView { description: polled.unwrap(), ..s };
                if s.gathered.len() < s.max_candidates {
                    (
                        NegotiationView { phase: Phase::GatheringCandidates, ..known },
                        ActionView::AwaitCandidate,
                    )
                } else {
                    finished(known)
                }
            } else if s.polls_left > 0 {
                (
                    NegotiationView { polls_left: (s.polls_left - 1) as usize, ..s },
                    ActionView::PollLocalDescription,
                )
            } else {
                failed(s, NegotiationError::Timeout)
            },
            EventView::EngineFailed => failed(s, NegotiationError::EngineNegotiationFailure),
            _ => (s, ActionView::Nothing),
        },
        Phase::GatheringCandidates => match e {
            EventView::CandidateArrived(c) => {
                let more = NegotiationView { gathered: s.gathered.push(c), ..s };
                if more.gathered.len() < s.max_candidates {
                    (more, ActionView::AwaitCandidate)
                } else {
                    finished(more)
                }
            },
            EventView::Quiescent => finished(s),
            _ => (s, ActionView::Nothing),
        },
        Phase::OfferReady | Phase::AnswerReady | Phase::Failed => (s, ActionView::Nothing),
    }
}

/// What holds of a negotiation in every state that it can reach: it never
/// holds more candidates than its bound, and while it gathers there is room
/// for one more and the local description is known.
pub open spec fn reachable_shape(s: NegotiationView) -> bool {
    &&& s.gathered.len() <= s.max_candidates
    &&& s.phase == Phase::GatheringCandidates ==> s.gathered.len() < s.max_candidates
        && s.description.len() > 0
    &&& s.phase == Phase::OfferReady ==> !s.answering
    &&& s.phase == Phase::AnswerReady ==> s.answering
}

/// How many more events can move the negotiation, at most.
pub open spec fn steps_left(s: NegotiationView) -> nat {
    let room = (s.max_candidates - s.gathered.len()) as nat;
    match s.phase {
        Phase::Idle => s.polls_left as nat + room + 5,
        Phase::RemoteOfferApplied => s.polls_left as nat + room + 4,
        Phase::OfferRequested | Phase::AnswerRequested => s.polls_left as nat + room + 3,
        Phase::AwaitingLocalDescription => s.polls_left as nat + room + 2,
        Phase::GatheringCandidates => room + 1,
        Phase::OfferReady | Phase::AnswerReady | Phase::Failed => 0,
    }
}

/// A negotiation that has delivered its result or has failed stays as it
/// is: no later event changes it or asks for anything.
pub proof fn lemma_terminal_is_final(s: NegotiationView, e: EventView)
    requires
        is_terminal(s.phase),
    ensures
        step_spec(s, e) == (s, ActionView::Nothing),
{
}

/// A negotiation starts in the shape of the reachable states, with its two
/// bounds and five steps ahead of it at most.
pub proof fn lemma_initial_state(polls: usize, max_candidates: usize)
    ensures
        reachable_shape(initial(polls, max_candidates)),
        steps_left(initial(polls, max_candidates)) == polls + max_candidates + 5,
{
}

/// Every step keeps the shape of the reachable states, and the bound on
/// the candidates.
pub proof fn lemma_shape_is_kept(s: NegotiationView, e: EventView)
    requires
        reachable_shape(s),
    ensures
        reachable_shape(step_spec(s, e).0),
        step_spec(s, e).0.max_candidates == s.max_candidates,
{
}

/// Every event either leaves the negotiation untouched and asks for
/// nothing, or brings it strictly closer to its end. So no wait goes on
/// without a bound: a negotiation takes no more steps than it had ahead of
/// it at the start.
pub proof fn lemma_every_wait_is_bounded(s: NegotiationView, e: EventView)
    requires
        reachable_shape(s),
    ensures
        step_spec(s, e).1 == ActionView::Nothing ==> step_spec(s, e).0 == s,
        step_spec(s, e).1 != ActionView::Nothing ==> steps_left(step_spec(s, e).0) < steps_left(s),
{
}

/// The window of a gathering: a candidate that arrives is collected, and
/// ends the gathering exactly when it fills the bound; a wait that passes
/// without a candidate ends the gathering with what was collected.
pub proof fn lemma_gathering_window(s: NegotiationView, c: IceCandidateView)
    requires
        reachable_shape(s),
        s.phase == Phase::GatheringCandidates,
    ensures
        step_spec(s, EventView::CandidateArrived(c)).0.gathered == s.gathered.push(c),
        is_terminal(step_spec(s, EventView::CandidateArrived(c)).0.phase) <==> s.gathered.len() + 1
            == s.max_candidates,
        step_spec(s, EventView::Quiescent).0.gathered == s.gathered,
        is_terminal(step_spec(s, EventView::Quiescent).0.phase),
{
}

/// The order of a negotiation: candidates are gathered only once the local
/// description is there, a description is delivered only by the step that
/// ends the wait for the description or the gathering, and only that step
/// makes the negotiation ready.
pub proof fn lemma_phases_come_in_order(s: NegotiationView, e: EventView)
    ensures
        ({
            let (next, action) = step_spec(s, e);
            &&& next.phase == Phase::GatheringCandidates ==> s.phase
                == Phase::AwaitingLocalDescription || s.phase == Phase::GatheringCandidates
            &&& action is Deliver ==> (s.phase == Phase::AwaitingLocalDescription || s.phase
                == Phase::GatheringCandidates) && (next.phase == Phase::OfferReady || next.phase
                == Phase::AnswerReady) && sdp_accepts(next.description)
            &&& (next.phase == Phase::OfferReady || next.phase == Phase::AnswerReady) && !is_terminal(
                s.phase,
            ) ==> action is Deliver
            &&& action is Fail <==> next.phase == Phase::Failed && s.phase != Phase::Failed
        }),
{
}

impl Negotiation {
    /// A negotiation that has not begun. `polls` bounds how often the local
    /// description is asked for again, `max_candidates` how many candidates
    /// are gathered.
    pub fn new(polls: usize, max_candidates: usize) -> (r: Negotiation)
        ensures
            r@ == initial(polls, max_candidates),
    {
        let r = Negotiation {
            phase: Phase::Idle,
            answering: false,
            polls_left: polls,
            max_candidates,
            description: String::new(),
            gathered: Vec::new(),
        };
        assert(r@.description =~= Seq::empty());
        assert(r@.gathered =~= Seq::empty());
        r
    }

    fn fail(&mut self, e: NegotiationError) -> (action: Action)
        ensures
            (final(self)@, action@) == failed(old(self)@, e),
    {
        self.phase = Phase::Failed;
        Action::Fail(e)
    }

    fn finish(&mut self) -> (action: Action)
        ensures
            (final(self)@, action@) == finished(old(self)@),
    {
        match assemble_description(&self.description, &self.gathered) {
            Ok(text) => {
                self.phase = if self.answering {
                    Phase::AnswerReady
                } else {
                    Phase::OfferReady
                };
                Action::Deliver(text)
            },
            Err(e) => self.fail(e),
        }
    }

    /// Takes in one event and says what is to be done next.
    pub fn step(&mut self, event: Event) -> (action: Action)
        ensures
            (final(self)@, action@) == step_spec(old(self)@, event@),
    {
        match self.phase {
            Phase::Idle => match event {
                Event::RequestOffer | Event::RenegotiationNeeded => {
                    self.phase = Phase::OfferRequested;
                    self.answering = false;
                    Action::CreateOffer
                },
                Event::RemoteOffer(text) => match process_sdp_answer(&text) {
                    Ok(candidates) => {
                        self.phase = Phase::RemoteOfferApplied;
                        self.answering = true;
                        Action::ApplyRemote { description: text, candidates }
                    },
                    Err(e) => self.fail(e),
                },
                _ => Action::Nothing,
            },
            Phase::RemoteOfferApplied => match event {
                Event::RemoteApplied => {
                    self.phase = Phase::AnswerRequested;
                    Action::CreateAnswer
                },
                Event::EngineFailed => self.fail(NegotiationError::EngineNegotiationFailure),
                _ => Action::Nothing,
            },
            Phase::OfferRequested | Phase::AnswerRequested => match event {
                Event::EngineCompleted => {
                    self.phase = Phase::AwaitingLocalDescription;
                    Action::PollLocalDescription
                },
                Event::EngineFailed => self.fail(NegotiationError::EngineNegotiationFailure),
                _ => Action::Nothing,
            },
            Phase::AwaitingLocalDescription => match event {
                Event::DescriptionPolled(polled) => {
                    let ready = match &polled {
                        Some(text) => text.as_str().unicode_len() > 0,
                        None => false,
                    };
                    if ready {
                        match polled {
                            Some(text) => {
                                self.description = text;
                            },
                            None => {},
                        }
                        if self.gathered.len() < self.max_candidates {
                            self.phase = Phase::GatheringCandidates;
                            Action::AwaitCandidate
                        } else {
                            self.finish()
                        }
                    } else if self.polls_left > 0 {
                        self.polls_left = self.polls_left - 1;
                        Action::PollLocalDescription
                    } else {
                        self.fail(NegotiationError::Timeout)
                    }
                },
                Event::EngineFailed => self.fail(NegotiationError::EngineNegotiationFailure),
                _ => Action::Nothing,
            },
            Phase::GatheringCandidates => match event {
                Event::CandidateArrived(c) => {
                    self.gathered.push(c);
                    assert(candidate_views(self.gathered@) =~= candidate_views(
                        old(self).gathered@,
                    ).push(c@));
                    if self.gathered.len() < self.max_candidates {
                        Action::AwaitCandidate
                    } else {
                        self.finish()
                    }
                },
                Event::Quiescent => self.finish(),
                _ => Action::Nothing,
            },
            Phase::OfferReady | Phase::AnswerReady | Phase::Failed => Action::Nothing,
        }
    }
}

/// A one-shot hand-over of a result from the side that produces it to the
/// side that waits for it.
#[derive(Debug, Clone, PartialEq, Eq)]
pub struct Rendezvous<T> {
    /// The result, from its completion until it is taken.
    pub value: Option<T>,
    /// Whether a result was handed in, taken since or not.
    pub completed: bool,
}

impl<T> Rendezvous<T> {
    /// A hand-over that waits for its result.
    pub fn new() -> (r: Self)
        ensures
            r.value is None,
            !r.completed,
    {
        Rendezvous { value: None, completed: false }
    }

    /// Hands the result in. Only the first completion counts: a later one
    /// changes nothing. Returns whether this one was the first.
    pub fn complete(&mut self, value: T) -> (first: bool)
        ensures
            first == !old(self).completed,
            final(self).completed,
            first ==> final(self).value == Some(value),
            !first ==> final(self).value == old(self).value,
    {
        if self.completed {
            false
        } else {
            self.value = Some(value);
            self.completed = true;
            true
        }
    }

    /// Takes the result, if it is there. It is handed out once.
    pub fn take(&mut self) -> (taken: Option<T>)
        ensures
            taken == old(self).value,
            final(self).value is None,
            final(self).completed == old(self).completed,
    {
        let mut taken = None;
        std::mem::swap(&mut self.value, &mut taken);
        taken
    }
}

} // verus!
