use sdp_negotiation::domain::IceCandidate;
use sdp_negotiation::error::NegotiationError;
use sdp_negotiation::negotiation::{
    Action, Event, Negotiation, Phase, Rendezvous, DESCRIPTION_POLL_MILLIS, MAX_DESCRIPTION_POLLS,
};

const LOCAL: &str = "v=0\r\no=- 1 1 IN IP4 0.0.0.0\r\ns=-\r\nt=0 0\r\nc=IN IP4 0.0.0.0\r\nm=audio 9 UDP/TLS/RTP/SAVPF 111\r\na=sendrecv\r\nm=video 9 UDP/TLS/RTP/SAVPF 96\r\na=recvonly\r\n";

fn numbered(index: u32, n: u32) -> IceCandidate {
    IceCandidate::new(index, format!("candidate:{} 1 UDP 1 10.0.0.{} 9 typ host", n, n))
}

fn polled(text: &str) -> Event {
    Event::DescriptionPolled(Some(text.to_string()))
}

#[test]
fn offer_runs_from_the_request_to_the_ready_offer() {
    let mut n = Negotiation::new(3, 16);
    assert_eq!(n.phase, Phase::Idle);
    assert_eq!(n.step(Event::RequestOffer), Action::CreateOffer);
    assert_eq!(n.phase, Phase::OfferRequested);
    assert_eq!(n.step(Event::EngineCompleted), Action::PollLocalDescription);
    assert_eq!(n.phase, Phase::AwaitingLocalDescription);
    assert_eq!(n.step(Event::DescriptionPolled(None)), Action::PollLocalDescription);
    assert_eq!(n.polls_left, 2);
    assert_eq!(n.step(polled("")), Action::PollLocalDescription);
    assert_eq!(n.polls_left, 1);
    assert_eq!(n.step(polled(LOCAL)), Action::AwaitCandidate);
    assert_eq!(n.phase, Phase::GatheringCandidates);
    assert_eq!(n.step(Event::CandidateArrived(numbered(0, 1))), Action::AwaitCandidate);
    assert_eq!(n.step(Event::CandidateArrived(numbered(0, 2))), Action::AwaitCandidate);
    let expected = LOCAL.replace(
        "a=sendrecv\r\n",
        "a=sendrecv\r\na=candidate:1 1 UDP 1 10.0.0.1 9 typ host\r\na=candidate:2 1 UDP 1 10.0.0.2 9 typ host\r\n",
    );
    assert_eq!(n.step(Event::Quiescent), Action::Deliver(expected));
    assert_eq!(n.phase, Phase::OfferReady);
}

#[test]
fn answer_runs_from_the_remote_offer_to_the_ready_answer() {
    let remote = LOCAL.replace(
        "a=recvonly\r\n",
        "a=recvonly\r\na=candidate:5 1 UDP 1 10.0.0.5 9 typ host\r\n",
    );
    let mut n = Negotiation::new(0, 1);
    assert_eq!(
        n.step(Event::RemoteOffer(remote.clone())),
        Action::ApplyRemote {
            description: remote,
            candidates: vec![IceCandidate::new(
                0,
                "candidate:5 1 UDP 1 10.0.0.5 9 typ host".to_string()
            )],
        }
    );
    assert_eq!(n.phase, Phase::RemoteOfferApplied);
    assert!(n.answering);
    assert_eq!(n.step(Event::RemoteApplied), Action::CreateAnswer);
    assert_eq!(n.phase, Phase::AnswerRequested);
    assert_eq!(n.step(Event::EngineCompleted), Action::PollLocalDescription);
    assert_eq!(n.step(polled(LOCAL)), Action::AwaitCandidate);
    let expected = format!("{}a=candidate:3 1 UDP 1 10.0.0.3 9 typ host\r\n", LOCAL);
    // the one candidate that is allowed ends the gathering at once
    assert_eq!(n.step(Event::CandidateArrived(numbered(1, 3))), Action::Deliver(expected));
    assert_eq!(n.phase, Phase::AnswerReady);
}

#[test]
fn malformed_remote_offer_fails_the_negotiation() {
    let mut n = Negotiation::new(3, 16);
    assert_eq!(
        n.step(Event::RemoteOffer("m=audio".to_string())),
        Action::Fail(NegotiationError::MalformedSdp)
    );
    assert_eq!(n.phase, Phase::Failed);
    assert_eq!(n.step(Event::RemoteApplied), Action::Nothing);
}

#[test]
fn description_that_never_comes_times_out() {
    let mut n = Negotiation::new(2, 16);
    n.step(Event::RequestOffer);
    assert_eq!(n.step(Event::EngineCompleted), Action::PollLocalDescription);
    assert_eq!(n.step(Event::DescriptionPolled(None)), Action::PollLocalDescription);
    assert_eq!(n.step(Event::DescriptionPolled(None)), Action::PollLocalDescription);
    assert_eq!(
        n.step(Event::DescriptionPolled(None)),
        Action::Fail(NegotiationError::Timeout)
    );
    assert_eq!(n.phase, Phase::Failed);
    // a description that comes too late is not taken any more
    assert_eq!(n.step(polled(LOCAL)), Action::Nothing);
    assert_eq!(n.phase, Phase::Failed);
}

#[test]
fn engine_failure_fails_the_negotiation() {
    let mut n = Negotiation::new(2, 16);
    n.step(Event::RequestOffer);
    assert_eq!(
        n.step(Event::EngineFailed),
        Action::Fail(NegotiationError::EngineNegotiationFailure)
    );
    assert_eq!(n.phase, Phase::Failed);
    // a stray success after the failure changes nothing
    let before = n.clone();
    assert_eq!(n.step(Event::EngineCompleted), Action::Nothing);
    assert_eq!(n, before);
}

#[test]
fn malformed_local_description_fails_at_the_end() {
    let mut n = Negotiation::new(2, 16);
    n.step(Event::RequestOffer);
    n.step(Event::EngineCompleted);
    assert_eq!(n.step(polled("v=0\r\n")), Action::AwaitCandidate);
    assert_eq!(n.step(Event::Quiescent), Action::Fail(NegotiationError::MalformedSdp));
    assert_eq!(n.phase, Phase::Failed);
}

#[test]
fn gathering_with_no_room_delivers_at_once() {
    let mut n = Negotiation::new(2, 0);
    n.step(Event::RequestOffer);
    n.step(Event::EngineCompleted);
    assert_eq!(n.step(polled(LOCAL)), Action::Deliver(LOCAL.to_string()));
    assert_eq!(n.phase, Phase::OfferReady);
}

#[test]
fn gathering_stops_at_its_bound() {
    let mut n = Negotiation::new(2, 2);
    n.step(Event::RequestOffer);
    n.step(Event::EngineCompleted);
    n.step(polled(LOCAL));
    assert_eq!(n.step(Event::CandidateArrived(numbered(9, 1))), Action::AwaitCandidate);
    // the second candidate fills the bound; it names a section that is not there
    assert_eq!(
        n.step(Event::CandidateArrived(numbered(2, 2))),
        Action::Deliver(LOCAL.to_string())
    );
    assert_eq!(n.gathered.len(), 2);
    assert_eq!(n.step(Event::CandidateArrived(numbered(0, 3))), Action::Nothing);
    assert_eq!(n.gathered.len(), 2);
}

#[test]
fn events_out_of_turn_are_ignored() {
    let mut n = Negotiation::new(2, 2);
    let idle = n.clone();
    assert_eq!(n.step(Event::EngineCompleted), Action::Nothing);
    assert_eq!(n.step(Event::Quiescent), Action::Nothing);
    assert_eq!(n.step(Event::CandidateArrived(numbered(0, 1))), Action::Nothing);
    assert_eq!(n.step(polled(LOCAL)), Action::Nothing);
    assert_eq!(n, idle);
    n.step(Event::RequestOffer);
    let requested = n.clone();
    assert_eq!(n.step(Event::RequestOffer), Action::Nothing);
    assert_eq!(n.step(Event::RemoteOffer(LOCAL.to_string())), Action::Nothing);
    assert_eq!(n, requested);
}

#[test]
fn ready_offer_is_delivered_once() {
    let mut n = Negotiation::new(2, 2);
    n.step(Event::RequestOffer);
    n.step(Event::EngineCompleted);
    n.step(polled(LOCAL));
    assert_eq!(n.step(Event::Quiescent), Action::Deliver(LOCAL.to_string()));
    let ready = n.clone();
    assert_eq!(n.step(Event::Quiescent), Action::Nothing);
    assert_eq!(n.step(Event::EngineFailed), Action::Nothing);
    assert_eq!(n.step(Event::RequestOffer), Action::Nothing);
    assert_eq!(n, ready);
}

#[test]
fn engine_may_call_for_the_offer_itself() {
    let mut n = Negotiation::new(1, 1);
    assert_eq!(n.step(Event::RenegotiationNeeded), Action::CreateOffer);
    assert_eq!(n.phase, Phase::OfferRequested);
    assert!(!n.answering);
    // while a negotiation runs, a further call is not taken up
    assert_eq!(n.step(Event::RenegotiationNeeded), Action::Nothing);
    assert_eq!(n.phase, Phase::OfferRequested);
}

#[test]
fn rendezvous_takes_the_first_completion_only() {
    let mut r: Rendezvous<Result<String, NegotiationError>> = Rendezvous::new();
    assert_eq!(r.take(), None);
    assert!(r.complete(Err(NegotiationError::EngineNegotiationFailure)));
    assert!(!r.complete(Ok("late".to_string())));
    assert_eq!(r.take(), Some(Err(NegotiationError::EngineNegotiationFailure)));
    assert_eq!(r.take(), None);
    assert!(!r.complete(Ok("later".to_string())));
    assert_eq!(r.take(), None);
    assert!(r.completed);
}

#[test]
fn description_is_waited_for_five_seconds_at_most() {
    assert_eq!(MAX_DESCRIPTION_POLLS, 5000);
    assert_eq!(DESCRIPTION_POLL_MILLIS, 1);
    let mut n = Negotiation::new(MAX_DESCRIPTION_POLLS, 16);
    n.step(Event::RequestOffer);
    let mut action = n.step(Event::EngineCompleted);
    let mut polls = 0;
    while action == Action::PollLocalDescription {
        polls += 1;
        action = n.step(Event::DescriptionPolled(None));
    }
    assert_eq!(polls, 5001);
    assert_eq!(action, Action::Fail(NegotiationError::Timeout));
}
