use std::sync::mpsc::channel;
use std::time::{Duration, Instant};

use sdp_negotiation::domain::{
    block_gather_local_candidates, gather_step, get_offer, IceCandidate,
    GATHER_QUIESCENCE_MILLIS, MAX_GATHERED_CANDIDATES,
};
use sdp_negotiation::error::NegotiationError;

const OFFER: &str = "v=0\r\no=- 1 1 IN IP4 0.0.0.0\r\ns=-\r\nt=0 0\r\nc=IN IP4 0.0.0.0\r\nm=audio 9 UDP/TLS/RTP/SAVPF 111\r\na=sendrecv\r\n";

fn numbered(n: u32) -> IceCandidate {
    IceCandidate::new(0, format!("candidate:{} 1 UDP 1 10.0.0.{} 9 typ host", n, n))
}

#[test]
fn gathering_stops_at_the_limit() {
    let (tx, rx) = channel();
    for n in 0..5 {
        tx.send(numbered(n)).unwrap();
    }
    let got = block_gather_local_candidates(rx, 2, Duration::from_millis(100));
    assert_eq!(got, vec![numbered(0), numbered(1)]);
}

#[test]
fn gathering_stops_when_the_stream_falls_quiet() {
    let (tx, rx) = channel();
    tx.send(numbered(7)).unwrap();
    let started = Instant::now();
    let got = block_gather_local_candidates(rx, 16, Duration::from_millis(100));
    assert_eq!(got, vec![numbered(7)]);
    assert!(started.elapsed() >= Duration::from_millis(100));
    // the sending side stayed open all the while: only the quiet ended the gathering
    drop(tx);
}

#[test]
fn gathering_stops_when_the_stream_ends() {
    let (tx, rx) = channel();
    tx.send(numbered(1)).unwrap();
    tx.send(numbered(2)).unwrap();
    tx.send(numbered(3)).unwrap();
    drop(tx);
    let got = block_gather_local_candidates(rx, 16, Duration::from_millis(100));
    assert_eq!(got, vec![numbered(1), numbered(2), numbered(3)]);
}

#[test]
fn gathering_nothing_does_not_wait() {
    let (tx, rx) = channel();
    tx.send(numbered(1)).unwrap();
    let started = Instant::now();
    let got = block_gather_local_candidates(rx, 0, Duration::from_secs(10));
    assert!(got.is_empty());
    assert!(started.elapsed() < Duration::from_secs(5));
}

#[test]
fn one_wait_is_taken_in() {
    let mut received = vec![numbered(1)];
    assert!(gather_step(&mut received, Some(numbered(2)), 4));
    assert_eq!(received, vec![numbered(1), numbered(2)]);
    assert!(gather_step(&mut received, Some(numbered(3)), 4));
    assert!(!gather_step(&mut received, Some(numbered(4)), 5 - 1));
    assert_eq!(received.len(), 4);
    let mut other = vec![numbered(1)];
    assert!(!gather_step(&mut other, None, 4));
    assert_eq!(other, vec![numbered(1)]);
}

#[test]
fn gathering_policy_is_sixteen_candidates_and_a_tenth_of_a_second() {
    assert_eq!(MAX_GATHERED_CANDIDATES, 16);
    assert_eq!(GATHER_QUIESCENCE_MILLIS, 100);
}

#[test]
fn offer_carries_the_gathered_candidates() {
    let (tx, rx) = channel();
    tx.send(numbered(1)).unwrap();
    tx.send(IceCandidate::new(0, "candidate:not a candidate".to_string())).unwrap();
    tx.send(numbered(2)).unwrap();
    tx.send(numbered(3).clone()).unwrap();
    drop(tx);
    let offer = get_offer(&OFFER.to_string(), rx).unwrap();
    let expected = format!(
        "{}a=candidate:1 1 UDP 1 10.0.0.1 9 typ host\r\na=candidate:2 1 UDP 1 10.0.0.2 9 typ host\r\na=candidate:3 1 UDP 1 10.0.0.3 9 typ host\r\n",
        OFFER
    );
    assert_eq!(offer, expected);
}

#[test]
fn offer_takes_at_most_sixteen_candidates() {
    let (tx, rx) = channel();
    for n in 0..20 {
        tx.send(numbered(n)).unwrap();
    }
    let offer = get_offer(&OFFER.to_string(), rx).unwrap();
    assert_eq!(offer.matches("a=candidate:").count(), 16);
    assert!(offer.contains("a=candidate:15 1 UDP 1 10.0.0.15 9 typ host\r\n"));
    assert!(!offer.contains("a=candidate:16 "));
}

#[test]
fn offer_of_a_malformed_description_fails() {
    let (tx, rx) = channel();
    tx.send(numbered(1)).unwrap();
    drop(tx);
    assert_eq!(
        get_offer(&"v=0\r\n".to_string(), rx),
        Err(NegotiationError::MalformedSdp)
    );
}
