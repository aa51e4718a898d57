use std::sync::mpsc::channel;

use sdp_negotiation::api::{
    add_ice_candidate, media_line_index_of, provide_answer, request_offer, AppState,
};
use sdp_negotiation::domain::IceCandidate;
use sdp_negotiation::error::NegotiationError;

const OFFER: &str = "v=0\r\no=- 1 1 IN IP4 0.0.0.0\r\ns=-\r\nt=0 0\r\nc=IN IP4 0.0.0.0\r\nm=audio 9 UDP/TLS/RTP/SAVPF 111\r\na=sendrecv\r\n";

#[test]
fn registry_starts_empty() {
    let state: AppState<u32> = AppState::new();
    assert!(!state.has_session());
    assert_eq!(state.peer, None);
    assert_eq!(state.with_current(|s| *s + 1), Err(NegotiationError::NoActiveSession));
}

#[test]
fn registry_holds_the_latest_session() {
    let mut state: AppState<String> = AppState::new();
    assert_eq!(state.replace("first".to_string()), None);
    assert!(state.has_session());
    assert_eq!(state.with_current(|s| s.len()), Ok(5));
    assert_eq!(state.replace("second".to_string()), Some("first".to_string()));
    assert_eq!(state.with_current(|s| s.clone()), Ok("second".to_string()));
}

#[test]
fn answer_without_a_session_is_reported() {
    let state: AppState<u32> = AppState::new();
    let r = provide_answer(&state, &OFFER.to_string());
    assert_eq!(r, Err(NegotiationError::NoActiveSession));
    let r = provide_answer(&state, &"not a description".to_string());
    assert_eq!(r, Err(NegotiationError::NoActiveSession));
}

#[test]
fn answer_for_the_active_session_is_checked() {
    let mut state: AppState<u32> = AppState::new();
    state.replace(1);
    let answer = format!("{}a=candidate:1 1 UDP 1 10.0.0.1 9 typ host\r\n", OFFER);
    assert_eq!(
        provide_answer(&state, &answer),
        Ok(vec![IceCandidate::new(0, "candidate:1 1 UDP 1 10.0.0.1 9 typ host".to_string())])
    );
    assert_eq!(provide_answer(&state, &OFFER.to_string()), Ok(vec![]));
    assert_eq!(
        provide_answer(&state, &"not a description".to_string()),
        Err(NegotiationError::MalformedSdp)
    );
}

#[test]
fn trickled_candidate_is_passed_on_unparsed() {
    let mut state: AppState<u32> = AppState::new();
    state.replace(1);
    assert_eq!(
        add_ice_candidate(&state, 3, "no candidate at all".to_string()),
        Ok(IceCandidate::new(3, "no candidate at all".to_string()))
    );
    assert_eq!(
        add_ice_candidate(&state, 0, "".to_string()),
        Ok(IceCandidate::new(0, "".to_string()))
    );
}

#[test]
fn trickled_candidate_without_a_session_is_reported() {
    let state: AppState<u32> = AppState::new();
    assert_eq!(
        add_ice_candidate(&state, 0, "candidate:1 1 UDP 1 10.0.0.1 9 typ host".to_string()),
        Err(NegotiationError::NoActiveSession)
    );
}

#[test]
fn offer_request_replaces_the_session() {
    let mut state: AppState<u32> = AppState::new();
    state.replace(1);
    let (tx, rx) = channel();
    tx.send(IceCandidate::new(0, "candidate:1 1 UDP 1 10.0.0.1 9 typ host".to_string())).unwrap();
    drop(tx);
    let offer = request_offer(&mut state, 2, &OFFER.to_string(), rx).unwrap();
    assert_eq!(offer, format!("{}a=candidate:1 1 UDP 1 10.0.0.1 9 typ host\r\n", OFFER));
    assert_eq!(state.peer, Some(2));
}

#[test]
fn failed_offer_request_keeps_the_session() {
    let mut state: AppState<u32> = AppState::new();
    state.replace(1);
    let (tx, rx) = channel::<IceCandidate>();
    drop(tx);
    assert_eq!(
        request_offer(&mut state, 2, &"v=0\r\n".to_string(), rx),
        Err(NegotiationError::MalformedSdp)
    );
    assert_eq!(state.peer, Some(1));
}

#[test]
fn media_line_index_is_an_unsigned_number() {
    assert_eq!(media_line_index_of("0"), Some(0));
    assert_eq!(media_line_index_of("+12"), Some(12));
    assert_eq!(media_line_index_of("4294967295"), Some(4294967295));
    assert_eq!(media_line_index_of("4294967296"), None);
    assert_eq!(media_line_index_of(""), None);
    assert_eq!(media_line_index_of("-1"), None);
    assert_eq!(media_line_index_of("1 "), None);
    assert_eq!(media_line_index_of("one"), None);
}
