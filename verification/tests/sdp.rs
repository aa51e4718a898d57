use sdp_negotiation::domain::{
    assemble_description, extract_candidates, inject, insert_local_candidates_into_sdp,
    process_sdp_answer, validate_sdp, IceCandidate,
};
use sdp_negotiation::error::NegotiationError;
use sdp_negotiation::sdp::{collapse_terminators, MediaSection, SdpDocument};

const OFFER: &str = "v=0\r\no=- 1 1 IN IP4 0.0.0.0\r\ns=-\r\nt=0 0\r\nc=IN IP4 0.0.0.0\r\nm=audio 9 UDP/TLS/RTP/SAVPF 111\r\na=rtpmap:111 opus/48000/2\r\na=sendrecv\r\nm=video 9 UDP/TLS/RTP/SAVPF 96\r\na=rtpmap:96 VP8/90000\r\n";

const HOST_A: &str = "candidate:1 1 UDP 2122260223 192.168.0.91 55827 typ host";
const HOST_B: &str = "candidate:2 1 TCP 1518280447 192.168.0.91 9 typ host";

fn candidate(index: u32, text: &str) -> IceCandidate {
    IceCandidate::new(index, text.to_string())
}

fn lines(items: &[&str]) -> Vec<String> {
    items.iter().map(|s| s.to_string()).collect()
}

fn collapse(text: &str) -> String {
    let chars: Vec<char> = text.chars().collect();
    collapse_terminators(&chars).into_iter().collect()
}

#[test]
fn candidate_getters_return_what_was_given() {
    let c = candidate(3, HOST_A);
    assert_eq!(c.get_media_line_index(), 3);
    assert_eq!(c.get_candidate_str(), HOST_A);
}

#[test]
fn valid_description_is_read_into_sections() {
    let doc = validate_sdp(&OFFER.to_string()).unwrap();
    assert_eq!(
        doc.session,
        lines(&["v=0", "o=- 1 1 IN IP4 0.0.0.0", "s=-", "t=0 0", "c=IN IP4 0.0.0.0"])
    );
    assert_eq!(doc.media_count(), 2);
    assert_eq!(doc.media[0].header, "m=audio 9 UDP/TLS/RTP/SAVPF 111");
    assert_eq!(doc.media[0].attributes, lines(&["a=rtpmap:111 opus/48000/2", "a=sendrecv"]));
    assert_eq!(doc.media[1].header, "m=video 9 UDP/TLS/RTP/SAVPF 96");
    assert_eq!(doc.media[1].attributes, lines(&["a=rtpmap:96 VP8/90000"]));
}

#[test]
fn valid_description_is_written_back_as_it_was() {
    let doc = validate_sdp(&OFFER.to_string()).unwrap();
    assert_eq!(doc.serialize(), OFFER);
}

#[test]
fn line_feeds_alone_become_full_line_ends() {
    let bare = OFFER.replace("\r\n", "\n");
    let doc = SdpDocument::parse(&bare).unwrap();
    assert_eq!(doc.serialize(), OFFER);
}

#[test]
fn blank_lines_are_left_out() {
    let spaced = OFFER.replace("t=0 0\r\n", "t=0 0\r\n\r\n   \r\n");
    let doc = SdpDocument::parse(&spaced).unwrap();
    assert_eq!(doc.serialize(), OFFER);
}

#[test]
fn malformed_description_is_refused() {
    assert_eq!(validate_sdp(&"".to_string()), Err(NegotiationError::MalformedSdp));
    assert_eq!(
        validate_sdp(&"this is not a session description, whatever its length".to_string()),
        Err(NegotiationError::MalformedSdp)
    );
    // no timing line
    let untimed = OFFER.replace("t=0 0\r\n", "");
    assert_eq!(validate_sdp(&untimed), Err(NegotiationError::MalformedSdp));
    // a version other than zero
    let versioned = OFFER.replace("v=0", "v=1");
    assert_eq!(SdpDocument::parse(&versioned), Err(NegotiationError::MalformedSdp));
}

#[test]
fn malformed_description_takes_no_candidates() {
    let untimed = OFFER.replace("t=0 0\r\n", "");
    assert_eq!(
        insert_local_candidates_into_sdp(&untimed, &vec![candidate(0, HOST_A)]),
        Err(NegotiationError::MalformedSdp)
    );
    assert_eq!(
        assemble_description(&untimed, &vec![candidate(0, HOST_A)]),
        Err(NegotiationError::MalformedSdp)
    );
}

#[test]
fn two_candidates_are_appended_to_the_first_section() {
    let offer = assemble_description(
        &OFFER.to_string(),
        &vec![candidate(0, HOST_A), candidate(0, HOST_B)],
    )
    .unwrap();
    let expected = OFFER.replace(
        "a=sendrecv\r\n",
        "a=sendrecv\r\na=candidate:1 1 UDP 2122260223 192.168.0.91 55827 typ host\r\na=candidate:2 1 TCP 1518280447 192.168.0.91 9 typ host\r\n",
    );
    assert_eq!(offer, expected);
}

#[test]
fn candidates_go_to_the_section_they_name() {
    let doc = insert_local_candidates_into_sdp(
        &OFFER.to_string(),
        &vec![candidate(1, HOST_A), candidate(0, HOST_B), candidate(1, HOST_B)],
    )
    .unwrap();
    let plain = validate_sdp(&OFFER.to_string()).unwrap();
    assert_eq!(doc.session, plain.session);
    assert_eq!(doc.media_count(), 2);
    assert_eq!(doc.media[0].header, plain.media[0].header);
    assert_eq!(doc.media[1].header, plain.media[1].header);
    assert_eq!(
        doc.media[0].attributes,
        lines(&["a=rtpmap:111 opus/48000/2", "a=sendrecv", &format!("a={}", HOST_B)])
    );
    assert_eq!(
        doc.media[1].attributes,
        lines(&[
            "a=rtpmap:96 VP8/90000",
            &format!("a={}", HOST_A),
            &format!("a={}", HOST_B)
        ])
    );
}

#[test]
fn candidate_beyond_the_last_section_changes_nothing() {
    let plain = validate_sdp(&OFFER.to_string()).unwrap();
    let mut doc = plain.clone();
    inject(&mut doc, &vec![candidate(2, HOST_A), candidate(4294967295, HOST_B)]);
    assert_eq!(doc, plain);
    assert_eq!(
        assemble_description(&OFFER.to_string(), &vec![candidate(2, HOST_A)]).unwrap(),
        OFFER
    );
}

#[test]
fn candidate_that_does_not_parse_is_skipped() {
    let offer = assemble_description(
        &OFFER.to_string(),
        &vec![
            candidate(0, "candidate:broken"),
            candidate(0, HOST_A),
            candidate(0, "candidate:1 1 udp 1 1.2.3.4 5 typ srflx"),
        ],
    )
    .unwrap();
    let expected = OFFER.replace("a=sendrecv\r\n", &format!("a=sendrecv\r\na={}\r\n", HOST_A));
    assert_eq!(offer, expected);
}

#[test]
fn inserted_candidate_is_normalised() {
    let offer = assemble_description(
        &OFFER.to_string(),
        &vec![candidate(1, "candidate:9 01 udp +5 10.0.0.1 0 typ host generation 0 ufrag x")],
    )
    .unwrap();
    assert!(offer.ends_with("a=rtpmap:96 VP8/90000\r\na=candidate:9 1 UDP 5 10.0.0.1 0 typ host\r\n"));
}

#[test]
fn three_candidate_lines_are_extracted_in_order() {
    let sdp = "v=0\r\na=rtcp:9 IN IP4 0.0.0.0\r\na=candidate:3719404024 1 udp 2122260223 192.168.0.91 55827 typ host generation 0 network-id 1 network-cost 10\r\na=ice-ufrag:avZ6\r\nm=video 9 RTP/AVP 96\r\na=candidate:2 1 udp 1 10.0.0.1 9 typ host\r\na=end-of-candidates\r\na=candidate:3 1 tcp 1 10.0.0.2 9 typ srflx raddr 10.0.0.3 rport 9\r\n".to_string();
    assert_eq!(
        extract_candidates(&sdp),
        lines(&[
            "candidate:3719404024 1 udp 2122260223 192.168.0.91 55827 typ host generation 0 network-id 1 network-cost 10",
            "candidate:2 1 udp 1 10.0.0.1 9 typ host",
            "candidate:3 1 tcp 1 10.0.0.2 9 typ srflx raddr 10.0.0.3 rport 9",
        ])
    );
}

#[test]
fn extraction_goes_by_the_start_of_the_line() {
    assert_eq!(extract_candidates(&"".to_string()), Vec::<String>::new());
    assert_eq!(
        extract_candidates(&" a=candidate:1\nb=candidate:2\na=candidat:3\n".to_string()),
        Vec::<String>::new()
    );
    assert_eq!(
        extract_candidates(&"a=candidate\na=candidate:1 x\r\n\r\na=candidates".to_string()),
        lines(&["candidate", "candidate:1 x", "candidates"])
    );
}

#[test]
fn remote_candidates_all_go_to_the_first_media_line() {
    let answer = OFFER.replace(
        "a=rtpmap:96 VP8/90000\r\n",
        &format!("a=rtpmap:96 VP8/90000\r\na={}\r\na={}\r\n", HOST_A, HOST_B),
    );
    let plan = process_sdp_answer(&answer).unwrap();
    assert_eq!(plan.len(), 2);
    assert_eq!(plan[0].media_line_index, 0);
    assert_eq!(plan[0].candidate_str, HOST_A);
    assert_eq!(plan[1].media_line_index, 0);
    assert_eq!(plan[1].candidate_str, HOST_B);
}

#[test]
fn malformed_answer_is_refused() {
    let r = process_sdp_answer(&format!("a={}\r\n", HOST_A));
    assert!(matches!(r, Err(NegotiationError::MalformedSdp)));
}

#[test]
fn runs_of_line_ends_are_reduced_to_one() {
    assert_eq!(collapse(""), "");
    assert_eq!(collapse("a\r\nb\r\n"), "a\r\nb\r\n");
    assert_eq!(collapse("a\r\n\r\nb"), "a\r\nb");
    assert_eq!(collapse("a\r\n\r\n\r\n\r\nb\r\n\r\n"), "a\r\nb\r\n");
    assert_eq!(collapse("\r\n\r\n"), "\r\n");
    assert_eq!(collapse("\r\n\r\r\n\n\r\n"), "\r\n\r\r\n\n\r\n");
    assert_eq!(collapse("\r\r\n\r\n\n"), "\r\r\n\n");
}

#[test]
fn written_document_never_holds_an_empty_line() {
    let doc = SdpDocument {
        session: lines(&["v=0", "", "", "s=-\r\n\r\n\r\nt=0 0", ""]),
        media: vec![
            MediaSection { header: "".to_string(), attributes: lines(&["", "a=x", ""]) },
            MediaSection { header: "m=video 9 RTP/AVP 96".to_string(), attributes: vec![] },
        ],
    };
    let text = doc.serialize();
    assert_eq!(text, "v=0\r\ns=-\r\nt=0 0\r\na=x\r\nm=video 9 RTP/AVP 96\r\n");
    assert!(!text.contains("\r\n\r\n"));
}

#[test]
fn document_is_built_line_by_line() {
    let mut doc = SdpDocument::new();
    assert_eq!(doc.media_count(), 0);
    for line in ["v=0", "a=group:BUNDLE 0", "m=audio 9 RTP/AVP 0", "a=mid:0", "m=video 9 RTP/AVP 96"] {
        doc.push_line(line.to_string());
    }
    assert!(doc.add_attribute(0, "a=sendonly".to_string()));
    assert!(!doc.add_attribute(2, "a=sendonly".to_string()));
    assert_eq!(doc.session, lines(&["v=0", "a=group:BUNDLE 0"]));
    assert_eq!(doc.media_count(), 2);
    assert_eq!(doc.media[0].attributes, lines(&["a=mid:0", "a=sendonly"]));
    assert!(doc.media[1].attributes.is_empty());
    assert_eq!(
        doc.serialize(),
        "v=0\r\na=group:BUNDLE 0\r\nm=audio 9 RTP/AVP 0\r\na=mid:0\r\na=sendonly\r\nm=video 9 RTP/AVP 96\r\n"
    );
}

#[test]
fn media_lines_are_told_by_their_type_letter() {
    let mut doc = SdpDocument::new();
    for line in ["m", "mm=x", "message=x", "=m", "a=m=x", "n=x", " ", "m x=y"] {
        doc.push_line(line.to_string());
    }
    assert_eq!(doc.media_count(), 0);
    assert_eq!(doc.session.len(), 8);
    for line in ["m=", "M=audio", " m=x", "m =x", "\tM\u{a0} =x", "m=a=b"] {
        doc.push_line(line.to_string());
    }
    assert_eq!(doc.media_count(), 6);
    assert_eq!(doc.media[4].header, "\tM\u{a0} =x");
    assert_eq!(doc.session.len(), 8);
}

#[test]
fn sections_are_counted_as_the_validation_counts_them() {
    let odd = OFFER.replace("m=video", " M = video");
    let doc = validate_sdp(&odd).unwrap();
    assert_eq!(doc.media_count(), 2);
    assert_eq!(doc.media[1].header, " M = video 9 UDP/TLS/RTP/SAVPF 96");
    let offer = assemble_description(&odd, &vec![candidate(1, HOST_A)]).unwrap();
    assert_eq!(offer, format!("{}a={}\r\n", odd, HOST_A));
}
