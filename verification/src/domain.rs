//! Candidates as the engine reports them, and what is done with them: they
//! are gathered from the engine's stream, inserted into a local description,
//! and read out of a remote one.

use std::sync::mpsc::Receiver;
use std::time::Duration;
use vstd::prelude::*;

use crate::error::NegotiationError;
use crate::moz_ice::{candidate_text, parse_candidate, to_moz_candidate, CandidateView};
use crate::sdp::{
    document_text, has_doubled_terminator, parsed_document, sdp_accepts, with_attribute,
    SdpDocument, SdpDocumentView,
};
use crate::text::{
    from_chars, has_prefix_at, lines, lines_of, push_all, string_views, tail_from, to_chars, views,
};

verus! {

/// A connectivity candidate as the media engine reports it: the index of the
/// media line it belongs to and the raw attribute value.
#[derive(Debug, Clone, PartialEq, Eq)]
pub struct IceCandidate {
    pub media_line_index: u32,
    pub candidate_str: String,
}

/// The mathematical value of an `IceCandidate`.
pub ghost struct IceCandidateView {
    pub media_line_index: u32,
    pub candidate_str: Seq<char>,
}

impl View for IceCandidate {
    type V = IceCandidateView;

    open spec fn view(&self) -> IceCandidateView {
        IceCandidateView {
            media_line_index: self.media_line_index,
            candidate_str: self.candidate_str@,
        }
    }
}

/// The values of a vector of candidates, in order.
pub open spec fn candidate_views(v: Seq<IceCandidate>) -> Seq<IceCandidateView> {
    v.map_values(|c: IceCandidate| c@)
}

impl IceCandidate {
    /// A candidate for the given media line, with the given raw value.
    pub fn new(media_line_index: u32, candidate_str: String) -> (r: Self)
        ensures
            r@ == (IceCandidateView { media_line_index, candidate_str: candidate_str@ }),
    {
        IceCandidate { media_line_index: media_line_index, candidate_str: candidate_str }
    }

    /// The index of the media line that the candidate belongs to.
    pub fn get_media_line_index(&self) -> (r: u32)
        ensures
            r == self@.media_line_index,
    {
        self.media_line_index
    }

    /// The raw attribute value of the candidate.
    pub fn get_candidate_str(&self) -> (r: String)
        ensures
            r@ == self@.candidate_str,
    {
        self.candidate_str.clone()
    }
}

/// How many candidates one gathering collects at most.
pub const MAX_GATHERED_CANDIDATES: usize = 16;

/// How long a gathering waits for the next candidate, in milliseconds.
pub const GATHER_QUIESCENCE_MILLIS: u64 = 100;

/// The attribute line that carries a candidate.
pub open spec fn candidate_line(c: CandidateView) -> Seq<char> {
    "a="@ + candidate_text(c)
}

/// The document after one candidate is offered to it. A candidate whose
/// media section does not exist, or whose text cannot be parsed, leaves
/// the document as it is; any other is added at the end of its section.
pub open spec fn inject_one(d: SdpDocumentView, c: IceCandidateView) -> SdpDocumentView {
    if c.media_line_index < d.media.len() {
        match parse_candidate(c.candidate_str) {
            Some(parsed) => with_attribute(d, c.media_line_index as int, candidate_line(parsed)),
            None => d,
        }
    } else {
        d
    }
}

/// The document after the candidates are offered to it one after the other.
pub open spec fn inject_all(d: SdpDocumentView, cs: Seq<IceCandidateView>) -> SdpDocumentView
    decreases cs.len(),
{
    if cs.len() == 0 {
        d
    } else {
        inject_one(inject_all(d, cs.drop_last()), cs.last())
    }
}

/// The candidate lines that a batch adds to the media section `index`, in
/// the order of the batch.
pub open spec fn lines_for_section(cs: Seq<IceCandidateView>, index: int) -> Seq<Seq<char>>
    decreases cs.len(),
{
    if cs.len() == 0 {
        Seq::empty()
    } else {
        let before = lines_for_section(cs.drop_last(), index);
        match parse_candidate(cs.last().candidate_str) {
            Some(parsed) => if cs.last().media_line_index == index {
                before.push(candidate_line(parsed))
            } else {
                before
            },
            None => before,
        }
    }
}

/// A candidate for a media section that the document does not have leaves
/// the document unchanged.
pub proof fn lemma_inject_out_of_range(d: SdpDocumentView, c: IceCandidateView)
    requires
        c.media_line_index >= d.media.len(),
    ensures
        inject_one(d, c) == d,
{
}

/// Injecting a batch keeps the session-level lines, the number of media
/// sections and every media line; each section gets exactly the lines of
/// its own candidates at its end, in the order of the batch. A section that
/// no candidate of the batch names is therefore unchanged.
pub proof fn lemma_inject_all_sections(d: SdpDocumentView, cs: Seq<IceCandidateView>)
    ensures
        inject_all(d, cs).session == d.session,
        inject_all(d, cs).media.len() == d.media.len(),
        forall|i: int|
            0 <= i < d.media.len() ==> {
                &&& (#[trigger] inject_all(d, cs).media[i]).header == d.media[i].header
                &&& inject_all(d, cs).media[i].attributes == d.media[i].attributes
                    + lines_for_section(cs, i)
            },
    decreases cs.len(),
{
    if cs.len() == 0 {
        assert forall|i: int| 0 <= i < d.media.len() implies d.media[i].attributes
            == d.media[i].attributes + lines_for_section(cs, i) by {
            assert(d.media[i].attributes + Seq::<Seq<char>>::empty() =~= d.media[i].attributes);
        }
    } else {
        let head = cs.drop_last();
        lemma_inject_all_sections(d, head);
        let mid = inject_all(d, head);
        let out = inject_all(d, cs);
        assert forall|i: int| 0 <= i < d.media.len() implies {
            &&& (#[trigger] out.media[i]).header == d.media[i].header
            &&& out.media[i].attributes == d.media[i].attributes + lines_for_section(cs, i)
        } by {
            assert(mid.media[i].header == d.media[i].header);
            assert(out.media[i].attributes =~= d.media[i].attributes + lines_for_section(cs, i));
        }
    }
}

/// A batch in which every candidate names a media section that the document
/// does not have leaves the document unchanged.
pub proof fn lemma_inject_all_out_of_range(d: SdpDocumentView, cs: Seq<IceCandidateView>)
    requires
        forall|k: int| 0 <= k < cs.len() ==> (#[trigger] cs[k]).media_line_index >= d.media.len(),
    ensures
        inject_all(d, cs) == d,
    decreases cs.len(),
{
    if cs.len() > 0 {
        let head = cs.drop_last();
        assert forall|k: int| 0 <= k < head.len() implies (#[trigger] head[k]).media_line_index
            >= d.media.len() by {
            assert(head[k] == cs[k]);
        }
        lemma_inject_all_out_of_range(d, head);
        assert(cs.last() == cs[cs.len() - 1]);
    }
}

/// Offers the candidates to the document, one after the other.
pub fn inject(doc: &mut SdpDocument, candidates: &Vec<IceCandidate>)
    ensures
        final(doc)@ == inject_all(old(doc)@, candidate_views(candidates@)),
{
    let mut i: usize = 0;
    assert(candidate_views(candidates@).subrange(0, 0) =~= Seq::empty());
    while i < candidates.len()
        invariant
            i <= candidates.len(),
            doc@ == inject_all(old(doc)@, candidate_views(candidates@).subrange(0, i as int)),
        decreases candidates.len() - i,
    {
        let c = &candidates[i];
        proof {
            let next = candidate_views(candidates@).subrange(0, i + 1);
            assert(next.drop_last() =~= candidate_views(candidates@).subrange(0, i as int));
            assert(next.last() == c@);
        }
        let index: usize = c.media_line_index as usize;
        if index < doc.media_count() {
            match to_moz_candidate(&c.candidate_str) {
                Ok(parsed) => {
                    let mut line = to_chars("a=");
                    let text = parsed.serialize();
                    push_all(&mut line, &to_chars(text.as_str()));
                    doc.add_attribute(index, from_chars(&line));
                },
                Err(_) => {},
            }
        }
        i += 1;
    }
    assert(candidate_views(candidates@).subrange(0, candidates.len() as int) =~= candidate_views(
        candidates@,
    ));
}

/// Checks a session description against the strict grammar and reads it as
/// a document.
pub fn validate_sdp(sdp: &String) -> (r: Result<SdpDocument, NegotiationError>)
    ensures
        match r {
            Ok(doc) => sdp_accepts(sdp@) && doc@ == parsed_document(sdp@),
            Err(e) => !sdp_accepts(sdp@) && e == NegotiationError::MalformedSdp,
        },
{
    SdpDocument::parse(sdp.as_str())
}

/// Inserts the candidates into a session description, each into the media
/// section that it names.
pub fn insert_local_candidates_into_sdp(
    raw_sdp: &String,
    local_candidates: &Vec<IceCandidate>,
) -> (r: Result<SdpDocument, NegotiationError>)
    ensures
        match r {
            Ok(doc) => sdp_accepts(raw_sdp@) && doc@ == inject_all(
                parsed_document(raw_sdp@),
                candidate_views(local_candidates@),
            ),
            Err(e) => !sdp_accepts(raw_sdp@) && e == NegotiationError::MalformedSdp,
        },
{
    let mut session = match validate_sdp(raw_sdp) {
        Ok(doc) => doc,
        Err(e) => return Err(e),
    };
    inject(&mut session, local_candidates);
    Ok(session)
}

/// A line that carries a candidate attribute.
pub open spec fn is_candidate_line(line: Seq<char>) -> bool {
    "a=candidate"@.is_prefix_of(line)
}

/// The candidate lines among `lines`, each without its leading `a=`, in
/// order.
pub open spec fn candidate_values(lines: Seq<Seq<char>>) -> Seq<Seq<char>>
    decreases lines.len(),
{
    if lines.len() == 0 {
        Seq::empty()
    } else if is_candidate_line(lines.last()) {
        candidate_values(lines.drop_last()).push(lines.last().skip(2))
    } else {
        candidate_values(lines.drop_last())
    }
}

/// The candidates that a session description carries, as raw attribute
/// values, in source order.
pub open spec fn extracted_candidates(sdp: Seq<char>) -> Seq<Seq<char>> {
    candidate_values(lines_of(sdp))
}

/// As many values are extracted as there are candidate lines.
pub proof fn lemma_candidate_values_count(lines: Seq<Seq<char>>)
    ensures
        candidate_values(lines).len() == lines.filter(|l: Seq<char>| is_candidate_line(l)).len(),
    decreases lines.len(),
{
    reveal(Seq::filter);
    if lines.len() > 0 {
        lemma_candidate_values_count(lines.drop_last());
    }
}

/// Reads the candidates out of a session description: every line that
/// begins with `a=candidate`, without its leading `a=`, in source order.
pub fn extract_candidates(sdp: &String) -> (r: Vec<String>)
    ensures
        string_views(r@) == extracted_candidates(sdp@),
{
    let chars = to_chars(sdp.as_str());
    let all = lines(&chars);
    let key = to_chars("a=candidate");
    proof {
        reveal_strlit("a=candidate");
    }
    let mut out: Vec<String> = Vec::new();
    let mut i: usize = 0;
    assert(views(all@).subrange(0, 0) =~= Seq::empty());
    while i < all.len()
        invariant
            i <= all.len(),
            key@ == "a=candidate"@,
            key@.len() == 11,
            string_views(out@) == candidate_values(views(all@).subrange(0, i as int)),
        decreases all.len() - i,
    {
        let line = &all[i];
        proof {
            let next = views(all@).subrange(0, i + 1);
            assert(next.drop_last() =~= views(all@).subrange(0, i as int));
            assert(next.last() == line@);
            assert(line@.skip(0) =~= line@);
        }
        if has_prefix_at(line, 0, &key) {
            let ghost done = string_views(out@);
            out.push(from_chars(&tail_from(line, 2)));
            assert(string_views(out@) =~= done.push(line@.skip(2)));
        }
        i += 1;
    }
    assert(views(all@).subrange(0, all.len() as int) =~= views(all@));
    out
}

/// `std::sync::mpsc::Receiver`, the receiving end of a channel. Nothing is
/// known here of what it holds.
#[verifier::external_type_specification]
#[verifier::external_body]
#[verifier::reject_recursive_types(T)]
pub struct ExReceiver<T>(Receiver<T>);

/// `std::time::Duration::from_millis` makes a duration of so many
/// milliseconds; a duration is opaque here, so nothing is stated of it.
pub assume_specification[ Duration::from_millis ](millis: u64) -> (d: Duration)
;

/// Waits on `std::sync::mpsc::Receiver::recv_timeout` for the next
/// candidate: the candidate, or nothing when the time ran out or the sending
/// side is gone. What comes back depends on the sender and on time, so
/// nothing is stated of it.
#[verifier::external_body]
fn receive_candidate(rx: &Receiver<IceCandidate>, timeout: Duration) -> (r: Option<IceCandidate>)
{
    rx.recv_timeout(timeout).ok()
}

/// Whether a gathering goes on after the given wait: it does while
/// candidates arrive and fewer than `max_items` are collected.
pub open spec fn gathering_continues(
    collected: Seq<IceCandidateView>,
    arrived: Option<IceCandidateView>,
    max_items: usize,
) -> bool {
    arrived is Some && collected.len() + 1 < max_items
}

/// Takes in what one wait for a candidate ended with. A candidate that
/// arrived is collected; a wait that ended without one ends the gathering,
/// and so does reaching `max_items`. Returns whether the gathering goes on.
pub fn gather_step(
    received: &mut Vec<IceCandidate>,
    arrived: Option<IceCandidate>,
    max_items: usize,
) -> (more: bool)
    ensures
        match arrived {
            Some(c) => candidate_views(final(received)@) == candidate_views(old(received)@).push(
                c@,
            ),
            None => candidate_views(final(received)@) == candidate_views(old(received)@),
        },
        more == gathering_continues(
            candidate_views(old(received)@),
            match arrived {
                Some(c) => Some(c@),
                None => None,
            },
            max_items,
        ),
        final(received)@.len() == old(received)@.len() + (if arrived is Some {
            1int
        } else {
            0int
        }),
{
    match arrived {
        Some(c) => {
            received.push(c);
            assert(candidate_views(received@) =~= candidate_views(old(received)@).push(c@));
            received.len() < max_items
        },
        None => false,
    }
}

/// Collects the candidates that the stream delivers, until `max_items` are
/// collected or a wait of `timeout` passes without a new one, whichever
/// comes first.
pub fn block_gather_local_candidates(
    rx: Receiver<IceCandidate>,
    max_items: usize,
    timeout: Duration,
) -> (received: Vec<IceCandidate>)
    ensures
        received@.len() <= max_items,
{
    let mut received: Vec<IceCandidate> = Vec::new();
    let mut continue_polling = max_items > 0;
    while continue_polling
        invariant
            received@.len() <= max_items,
            continue_polling ==> received@.len() < max_items,
        decreases max_items - received@.len(), if continue_polling { 1int } else { 0int },
    {
        let arrived = receive_candidate(&rx, timeout);
        continue_polling = gather_step(&mut received, arrived, max_items);
    }
    received
}

/// The description with the candidates inserted, as wire text.
pub open spec fn assembled_description(raw: Seq<char>, cs: Seq<IceCandidateView>) -> Seq<char> {
    document_text(inject_all(parsed_document(raw), cs))
}

/// Completes a local description with the candidates that were gathered
/// for it: each candidate goes into the media section that it names, and
/// the result is written as wire text.
pub fn assemble_description(raw: &String, candidates: &Vec<IceCandidate>) -> (r: Result<
    String,
    NegotiationError,
>)
    ensures
        match r {
            Ok(text) => sdp_accepts(raw@) && text@ == assembled_description(
                raw@,
                candidate_views(candidates@),
            ) && !has_doubled_terminator(text@),
            Err(e) => !sdp_accepts(raw@) && e == NegotiationError::MalformedSdp,
        },
{
    match insert_local_candidates_into_sdp(raw, candidates) {
        Ok(doc) => Ok(doc.serialize()),
        Err(e) => Err(e),
    }
}

/// Makes the offer out of the engine's local description: gathers the
/// local candidates from the stream, at most sixteen and until the stream
/// stays quiet for a tenth of a second, and inserts them.
pub fn get_offer(raw_offer: &String, ice_receiver: Receiver<IceCandidate>) -> (r: Result<
    String,
    NegotiationError,
>)
    ensures
        match r {
            Ok(text) => sdp_accepts(raw_offer@) && !has_doubled_terminator(text@) && exists|
                cs: Seq<IceCandidateView>,
            |
                cs.len() <= MAX_GATHERED_CANDIDATES && text@ == #[trigger] assembled_description(
                    raw_offer@,
                    cs,
                ),
            Err(e) => !sdp_accepts(raw_offer@) && e == NegotiationError::MalformedSdp,
        },
{
    let local_candidates = block_gather_local_candidates(
        ice_receiver,
        MAX_GATHERED_CANDIDATES,
        Duration::from_millis(GATHER_QUIESCENCE_MILLIS),
    );
    assemble_description(raw_offer, &local_candidates)
}

/// The candidates that a remote description carries, each addressed to the
/// first media line: all media share one transport.
pub open spec fn remote_candidates(values: Seq<Seq<char>>) -> Seq<IceCandidateView> {
    values.map_values(|v: Seq<char>| IceCandidateView { media_line_index: 0, candidate_str: v })
}

/// Checks a remote description and reads out the candidates that are to
/// be applied once the description is set, in source order. A description
/// that fails the validation is refused and nothing is to be applied.
pub fn process_sdp_answer(raw_sdp: &String) -> (r: Result<Vec<IceCandidate>, NegotiationError>)
    ensures
        match r {
            Ok(cs) => sdp_accepts(raw_sdp@) && candidate_views(cs@) == remote_candidates(
                extracted_candidates(raw_sdp@),
            ),
            Err(e) => !sdp_accepts(raw_sdp@) && e == NegotiationError::MalformedSdp,
        },
{
    match validate_sdp(raw_sdp) {
        Ok(_) => {},
        Err(e) => return Err(e),
    }
    let values = extract_candidates(raw_sdp);
    let ghost all = string_views(values@);
    let mut out: Vec<IceCandidate> = Vec::new();
    let mut i: usize = 0;
    while i < values.len()
        invariant
            i <= values.len(),
            all == string_views(values@),
            candidate_views(out@) == remote_candidates(all.subrange(0, i as int)),
        decreases values.len() - i,
    {
        let ghost done = candidate_views(out@);
        let value = values[i].clone();
        out.push(IceCandidate::new(0, value));
        assert(candidate_views(out@) =~= done.push(
            IceCandidateView { media_line_index: 0, candidate_str: all[i as int] },
        ));
        i += 1;
        assert(remote_candidates(all.subrange(0, i as int)) =~= done.push(
            IceCandidateView { media_line_index: 0, candidate_str: all[i - 1] },
        ));
    }
    assert(all.subrange(0, values.len() as int) =~= all);
    Ok(out)
}

/// What an incoming stream carries, going by the name of its capabilities.
#[derive(Debug, Clone, Copy, PartialEq, Eq, Structural)]
pub enum StreamKind {
    Video,
    Audio,
    Unknown,
}

/// The kind of stream that a capabilities name stands for.
pub open spec fn stream_kind_of(caps_name: Seq<char>) -> StreamKind {
    if "video/"@.is_prefix_of(caps_name) {
        StreamKind::Video
    } else if "audio/"@.is_prefix_of(caps_name) {
        StreamKind::Audio
    } else {
        StreamKind::Unknown
    }
}

/// Tells video from audio by the name of a stream's capabilities: the name
/// begins with `video/` or with `audio/`, or the stream is of neither kind.
pub fn stream_kind(caps_name: &str) -> (r: StreamKind)
    ensures
        r == stream_kind_of(caps_name@),
{
    let name = to_chars(caps_name);
    assert(name@.skip(0) =~= name@);
    if has_prefix_at(&name, 0, &to_chars("video/")) {
        StreamKind::Video
    } else if has_prefix_at(&name, 0, &to_chars("audio/")) {
        StreamKind::Audio
    } else {
        StreamKind::Unknown
    }
}

} // verus!
