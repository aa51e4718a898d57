//! One ICE candidate attribute: its text grammar, its structured form, and
//! the way from each to the other.

use std::str::FromStr;
use vstd::prelude::*;

use crate::error::NegotiationError;
use crate::number::{
    decimal, is_digit, lemma_decimal_roundtrip, parse_unsigned, push_decimal, read_unsigned,
};
use crate::text::{
    from_chars, is_text, join, join_with, lemma_join_head, lemma_split_first_is_prefix,
    lemma_split_join, lemma_split_pieces_clean, lemma_strip_repeated_done, lowered, push_all,
    split, split_on, strip_prefix_repeated, strip_repeated, to_chars, to_lower, views,
};

verus! {

/// The transport protocol of a candidate.
#[derive(Debug, Clone, Copy, PartialEq, Eq, Structural)]
pub enum Transport {
    Udp,
    Tcp,
}

/// How a candidate address was learnt.
#[derive(Debug, Clone, Copy, PartialEq, Eq, Structural)]
pub enum CandidateType {
    Host,
    ServerReflexive,
    PeerReflexive,
    Relay,
}

/// One ICE candidate attribute in structured form.
///
/// Addresses are kept as the literal that was read, once the address
/// validator has accepted it.
#[derive(Debug, Clone, PartialEq, Eq)]
pub struct CandidateAttribute {
    pub foundation: String,
    pub component_id: u32,
    pub transport: Transport,
    pub priority: u64,
    pub address: String,
    pub port: u32,
    pub candidate_type: CandidateType,
    pub related_address: Option<String>,
    pub related_port: Option<u32>,
}

/// The mathematical value of a `CandidateAttribute`.
pub ghost struct CandidateView {
    pub foundation: Seq<char>,
    pub component_id: u32,
    pub transport: Transport,
    pub priority: u64,
    pub address: Seq<char>,
    pub port: u32,
    pub candidate_type: CandidateType,
    pub related_address: Option<Seq<char>>,
    pub related_port: Option<u32>,
}

impl View for CandidateAttribute {
    type V = CandidateView;

    open spec fn view(&self) -> CandidateView {
        CandidateView {
            foundation: self.foundation@,
            component_id: self.component_id,
            transport: self.transport,
            priority: self.priority,
            address: self.address@,
            port: self.port,
            candidate_type: self.candidate_type,
            related_address: match self.related_address {
                Some(a) => Some(a@),
                None => None,
            },
            related_port: self.related_port,
        }
    }
}

/// Whether `webrtc_sdp::address::Address::from_str` accepts the text, as an IP
/// address or as a host name.
pub uninterp spec fn address_accepts(text: Seq<char>) -> bool;

/// Asks `webrtc_sdp::address::Address::from_str` whether it accepts the text.
/// The answer depends on the text alone; nothing is proved of it here.
#[verifier::external_body]
fn address_is_valid(text: &str) -> (ok: bool)
    ensures
        ok == address_accepts(text@),
{
    webrtc_sdp::address::Address::from_str(text).is_ok()
}

/// The transport that a token names, in any case of its letters.
pub open spec fn transport_of(token: Seq<char>) -> Option<Transport> {
    if lowered(token) == "udp"@ {
        Some(Transport::Udp)
    } else if lowered(token) == "tcp"@ {
        Some(Transport::Tcp)
    } else {
        None
    }
}

/// The candidate type that an extended-form type token names.
pub open spec fn extended_type_of(token: Seq<char>) -> Option<CandidateType> {
    if lowered(token) == "srflx"@ {
        Some(CandidateType::ServerReflexive)
    } else if lowered(token) == "prflx"@ {
        Some(CandidateType::PeerReflexive)
    } else if lowered(token) == "relay"@ {
        Some(CandidateType::Relay)
    } else {
        None
    }
}

/// The token that a transport is written as.
pub open spec fn transport_text(t: Transport) -> Seq<char> {
    match t {
        Transport::Udp => "UDP"@,
        Transport::Tcp => "TCP"@,
    }
}

/// The token that a candidate type is written as.
pub open spec fn type_text(t: CandidateType) -> Seq<char> {
    match t {
        CandidateType::Host => "host"@,
        CandidateType::ServerReflexive => "srflx"@,
        CandidateType::PeerReflexive => "prflx"@,
        CandidateType::Relay => "relay"@,
    }
}

/// The host form: six fields, `typ`, `host`.
pub open spec fn host_candidate(
    foundation: Seq<char>,
    component_id: Seq<char>,
    transport: Seq<char>,
    priority: Seq<char>,
    address: Seq<char>,
    port: Seq<char>,
) -> Option<CandidateView> {
    if parse_unsigned(component_id, u32::MAX as nat) is Some && parse_unsigned(
        priority,
        u64::MAX as nat,
    ) is Some && parse_unsigned(port, u32::MAX as nat) is Some && transport_of(transport) is Some
        && address_accepts(address) {
        Some(
            CandidateView {
                foundation,
                component_id: parse_unsigned(component_id, u32::MAX as nat).unwrap() as u32,
                transport: transport_of(transport).unwrap(),
                priority: parse_unsigned(priority, u64::MAX as nat).unwrap() as u64,
                address,
                port: parse_unsigned(port, u32::MAX as nat).unwrap() as u32,
                candidate_type: CandidateType::Host,
                related_address: None,
                related_port: None,
            },
        )
    } else {
        None
    }
}

/// The extended form: the six fields, a type other than host, and the
/// related address and port, all of which must convert.
pub open spec fn extern_candidate(
    foundation: Seq<char>,
    component_id: Seq<char>,
    transport: Seq<char>,
    priority: Seq<char>,
    address: Seq<char>,
    port: Seq<char>,
    candidate_type: Seq<char>,
    connection_address: Seq<char>,
    connection_port: Seq<char>,
) -> Option<CandidateView> {
    match host_candidate(foundation, component_id, transport, priority, address, port) {
        Some(base) => {
            if extended_type_of(candidate_type) is Some && address_accepts(connection_address)
                && parse_unsigned(connection_port, u32::MAX as nat) is Some {
                Some(
                    CandidateView {
                        candidate_type: extended_type_of(candidate_type).unwrap(),
                        related_address: Some(connection_address),
                        related_port: Some(
                            parse_unsigned(connection_port, u32::MAX as nat).unwrap() as u32,
                        ),
                        ..base
                    },
                )
            } else {
                None
            }
        },
        None => None,
    }
}

/// Eight tokens or more, the seventh `typ` and the eighth `host`.
pub open spec fn is_host_shape(t: Seq<Seq<char>>) -> bool {
    t.len() >= 8 && t[6] == "typ"@ && t[7] == "host"@
}

/// Twelve tokens or more, with `typ`, `raddr` and `rport` in their places.
pub open spec fn is_extended_shape(t: Seq<Seq<char>>) -> bool {
    t.len() >= 12 && t[6] == "typ"@ && t[8] == "raddr"@ && t[10] == "rport"@
}

/// The tokens of a raw candidate: every leading `candidate:` is dropped and
/// the rest is cut at each space.
pub open spec fn candidate_tokens(raw: Seq<char>) -> Seq<Seq<char>> {
    split_on(strip_repeated(raw, "candidate:"@), ' ')
}

/// The candidate that a token sequence stands for. The host shape is tried
/// first; tokens after the recognised shape are ignored.
pub open spec fn candidate_of_tokens(t: Seq<Seq<char>>) -> Option<CandidateView> {
    if is_host_shape(t) {
        host_candidate(t[0], t[1], t[2], t[3], t[4], t[5])
    } else if is_extended_shape(t) {
        extern_candidate(t[0], t[1], t[2], t[3], t[4], t[5], t[7], t[9], t[11])
    } else {
        None
    }
}

/// The candidate that a raw attribute value stands for, if any.
pub open spec fn parse_candidate(raw: Seq<char>) -> Option<CandidateView> {
    candidate_of_tokens(candidate_tokens(raw))
}

fn read_transport(token: &Vec<char>) -> (r: Option<Transport>)
    ensures
        r == transport_of(token@),
{
    let low = to_lower(token);
    if is_text(&low, "udp") {
        Some(Transport::Udp)
    } else if is_text(&low, "tcp") {
        Some(Transport::Tcp)
    } else {
        None
    }
}

fn read_extended_type(token: &Vec<char>) -> (r: Option<CandidateType>)
    ensures
        r == extended_type_of(token@),
{
    let low = to_lower(token);
    if is_text(&low, "srflx") {
        Some(CandidateType::ServerReflexive)
    } else if is_text(&low, "prflx") {
        Some(CandidateType::PeerReflexive)
    } else if is_text(&low, "relay") {
        Some(CandidateType::Relay)
    } else {
        None
    }
}

fn read_u32(token: &Vec<char>) -> (r: Option<u32>)
    ensures
        r.is_some() == parse_unsigned(token@, u32::MAX as nat).is_some(),
        r matches Some(v) ==> parse_unsigned(token@, u32::MAX as nat) == Some(v as nat),
{
    match read_unsigned(token, 0xffff_ffff) {
        Some(v) => Some(v as u32),
        None => None,
    }
}

/// Reads an address field: the literal itself, where the validator accepts it.
fn read_address(token: &Vec<char>) -> (r: Option<String>)
    ensures
        r.is_some() == address_accepts(token@),
        r matches Some(a) ==> a@ == token@,
{
    let literal = from_chars(token);
    if address_is_valid(literal.as_str()) {
        Some(literal)
    } else {
        None
    }
}

/// Converts the six fields of the host form.
fn assemble_host_candidate(
    foundation: &Vec<char>,
    component_id: &Vec<char>,
    transport: &Vec<char>,
    priority: &Vec<char>,
    address: &Vec<char>,
    port: &Vec<char>,
) -> (r: Result<CandidateAttribute, NegotiationError>)
    ensures
        match r {
            Ok(c) => host_candidate(
                foundation@,
                component_id@,
                transport@,
                priority@,
                address@,
                port@,
            ) == Some(c@),
            Err(e) => e == NegotiationError::MalformedCandidate && host_candidate(
                foundation@,
                component_id@,
                transport@,
                priority@,
                address@,
                port@,
            ) is None,
        },
{
    let parsed_component_id = match read_u32(component_id) {
        Some(v) => v,
        None => return Err(NegotiationError::MalformedCandidate),
    };
    let parsed_priority = match read_unsigned(priority, u64::MAX) {
        Some(v) => v,
        None => return Err(NegotiationError::MalformedCandidate),
    };
    let parsed_port = match read_u32(port) {
        Some(v) => v,
        None => return Err(NegotiationError::MalformedCandidate),
    };
    let parsed_transport = match read_transport(transport) {
        Some(t) => t,
        None => return Err(NegotiationError::MalformedCandidate),
    };
    let parsed_address = match read_address(address) {
        Some(a) => a,
        None => return Err(NegotiationError::MalformedCandidate),
    };
    Ok(
        CandidateAttribute {
            foundation: from_chars(foundation),
            component_id: parsed_component_id,
            transport: parsed_transport,
            priority: parsed_priority,
            address: parsed_address,
            port: parsed_port,
            candidate_type: CandidateType::Host,
            related_address: None,
            related_port: None,
        },
    )
}

/// Converts the fields of the extended form: the six leading fields, the
/// type, and the related address and port.
fn assemble_extern_candidate(
    foundation: &Vec<char>,
    component_id: &Vec<char>,
    transport: &Vec<char>,
    priority: &Vec<char>,
    address: &Vec<char>,
    port: &Vec<char>,
    candidate_type: &Vec<char>,
    connection_address: &Vec<char>,
    connection_port: &Vec<char>,
) -> (r: Result<CandidateAttribute, NegotiationError>)
    ensures
        match r {
            Ok(c) => extern_candidate(
                foundation@,
                component_id@,
                transport@,
                priority@,
                address@,
                port@,
                candidate_type@,
                connection_address@,
                connection_port@,
            ) == Some(c@),
            Err(e) => e == NegotiationError::MalformedCandidate && extern_candidate(
                foundation@,
                component_id@,
                transport@,
                priority@,
                address@,
                port@,
                candidate_type@,
                connection_address@,
                connection_port@,
            ) is None,
        },
{
    let base = match assemble_host_candidate(
        foundation,
        component_id,
        transport,
        priority,
        address,
        port,
    ) {
        Ok(c) => c,
        Err(e) => return Err(e),
    };
    let parsed_type = match read_extended_type(candidate_type) {
        Some(t) => t,
        None => return Err(NegotiationError::MalformedCandidate),
    };
    let parsed_remote_address = match read_address(connection_address) {
        Some(a) => a,
        None => return Err(NegotiationError::MalformedCandidate),
    };
    let parsed_remote_port = match read_u32(connection_port) {
        Some(v) => v,
        None => return Err(NegotiationError::MalformedCandidate),
    };
    Ok(
        CandidateAttribute {
            foundation: base.foundation,
            component_id: base.component_id,
            transport: base.transport,
            priority: base.priority,
            address: base.address,
            port: base.port,
            candidate_type: parsed_type,
            related_address: Some(parsed_remote_address),
            related_port: Some(parsed_remote_port),
        },
    )
}

/// Parses a raw candidate attribute value into its structured form.
///
/// Succeeds exactly on the raw values that `parse_candidate` gives a meaning;
/// every other value is reported as a malformed candidate.
pub fn to_moz_candidate(raw: &String) -> (r: Result<CandidateAttribute, NegotiationError>)
    ensures
        match r {
            Ok(c) => parse_candidate(raw@) == Some(c@) && well_formed(c@),
            Err(e) => e == NegotiationError::MalformedCandidate && parse_candidate(raw@) is None,
        },
{
    proof {
        lemma_parsed_is_well_formed(raw@);
    }
    let chars = to_chars(raw.as_str());
    let prefix = to_chars("candidate:");
    proof {
        reveal_strlit("candidate:");
    }
    let rest = strip_prefix_repeated(&chars, &prefix);
    let parts = split(&rest, ' ');
    assert(views(parts@) == candidate_tokens(raw@));
    let n: usize = parts.len();
    if n >= 8 && is_text(&parts[6], "typ") && is_text(&parts[7], "host") {
        assemble_host_candidate(&parts[0], &parts[1], &parts[2], &parts[3], &parts[4], &parts[5])
    } else if n >= 12 && is_text(&parts[6], "typ") && is_text(&parts[8], "raddr") && is_text(
        &parts[10],
        "rport",
    ) {
        assemble_extern_candidate(
            &parts[0],
            &parts[1],
            &parts[2],
            &parts[3],
            &parts[4],
            &parts[5],
            &parts[7],
            &parts[9],
            &parts[11],
        )
    } else {
        Err(NegotiationError::MalformedCandidate)
    }
}

/// The fields that a candidate is written with, in order.
pub open spec fn candidate_fields(c: CandidateView) -> Seq<Seq<char>> {
    let base = seq![
        c.foundation,
        decimal(c.component_id as nat),
        transport_text(c.transport),
        decimal(c.priority as nat),
        c.address,
        decimal(c.port as nat),
        "typ"@,
        type_text(c.candidate_type),
    ];
    let with_address = match c.related_address {
        Some(a) => base + seq!["raddr"@, a],
        None => base,
    };
    match c.related_port {
        Some(p) => with_address + seq!["rport"@, decimal(p as nat)],
        None => with_address,
    }
}

/// The wire text of a candidate: the literal `candidate:`, then the fields
/// with one space between each two.
pub open spec fn candidate_text(c: CandidateView) -> Seq<char> {
    "candidate:"@ + join_with(candidate_fields(c), ' ')
}

/// The two valid shapes of a candidate: the host form without a related
/// address and port, and the extended form with both. The text fields hold
/// no space, the foundation does not begin with `candidate:`, and the
/// addresses are ones that the validator accepts.
pub open spec fn well_formed(c: CandidateView) -> bool {
    &&& !c.foundation.contains(' ')
    &&& !"candidate:"@.is_prefix_of(c.foundation)
    &&& !c.address.contains(' ')
    &&& address_accepts(c.address)
    &&& c.candidate_type == CandidateType::Host ==> c.related_address is None && c.related_port is None
    &&& c.candidate_type != CandidateType::Host ==> {
        &&& c.related_port is Some
        &&& c.related_address is Some
        &&& !c.related_address.unwrap().contains(' ')
        &&& address_accepts(c.related_address.unwrap())
    }
}

impl CandidateAttribute {
    /// Writes the candidate as wire text.
    pub fn serialize(&self) -> (r: String)
        ensures
            r@ == candidate_text(self@),
    {
        let mut fields: Vec<Vec<char>> = Vec::new();
        fields.push(to_chars(self.foundation.as_str()));
        let mut component: Vec<char> = Vec::new();
        push_decimal(&mut component, self.component_id as u64);
        assert(component@ =~= decimal(self.component_id as nat));
        fields.push(component);
        fields.push(
            match self.transport {
                Transport::Udp => to_chars("UDP"),
                Transport::Tcp => to_chars("TCP"),
            },
        );
        let mut priority: Vec<char> = Vec::new();
        push_decimal(&mut priority, self.priority);
        assert(priority@ =~= decimal(self.priority as nat));
        fields.push(priority);
        fields.push(to_chars(self.address.as_str()));
        let mut port: Vec<char> = Vec::new();
        push_decimal(&mut port, self.port as u64);
        assert(port@ =~= decimal(self.port as nat));
        fields.push(port);
        fields.push(to_chars("typ"));
        fields.push(
            match self.candidate_type {
                CandidateType::Host => to_chars("host"),
                CandidateType::ServerReflexive => to_chars("srflx"),
                CandidateType::PeerReflexive => to_chars("prflx"),
                CandidateType::Relay => to_chars("relay"),
            },
        );
        let ghost base = views(fields@);
        match &self.related_address {
            Some(a) => {
                fields.push(to_chars("raddr"));
                fields.push(to_chars(a.as_str()));
                assert(views(fields@) =~= base + seq!["raddr"@, a@]);
            },
            None => {},
        }
        let ghost with_address = views(fields@);
        match self.related_port {
            Some(p) => {
                let mut related: Vec<char> = Vec::new();
                push_decimal(&mut related, p as u64);
                assert(related@ =~= decimal(p as nat));
                fields.push(to_chars("rport"));
                fields.push(related);
                assert(views(fields@) =~= with_address + seq!["rport"@, decimal(p as nat)]);
            },
            None => {},
        }
        assert(views(fields@) =~= candidate_fields(self@));
        let mut out = to_chars("candidate:");
        let joined = join(&fields, ' ');
        push_all(&mut out, &joined);
        from_chars(&out)
    }
}

/// The literal tokens of the grammar hold no space, and the decimal writing
/// of a number holds none either.
proof fn lemma_fields_hold_no_space(c: CandidateView)
    requires
        well_formed(c),
    ensures
        forall|i: int|
            0 <= i < candidate_fields(c).len() ==> !(#[trigger] candidate_fields(c)[i]).contains(
                ' ',
            ),
        c.candidate_type == CandidateType::Host ==> candidate_fields(c).len() == 8,
        c.candidate_type != CandidateType::Host ==> candidate_fields(c).len() == 12,
{
    reveal_strlit("UDP");
    reveal_strlit("TCP");
    reveal_strlit("typ");
    reveal_strlit("host");
    reveal_strlit("srflx");
    reveal_strlit("prflx");
    reveal_strlit("relay");
    reveal_strlit("raddr");
    reveal_strlit("rport");
    lemma_decimal_roundtrip(c.component_id as nat);
    lemma_decimal_roundtrip(c.priority as nat);
    lemma_decimal_roundtrip(c.port as nat);
    if c.related_port is Some {
        lemma_decimal_roundtrip(c.related_port.unwrap() as nat);
    }
    let f = candidate_fields(c);
    assert forall|i: int| 0 <= i < f.len() implies !(#[trigger] f[i]).contains(' ') by {
        let piece = f[i];
        if piece.contains(' ') {
            let k = choose|k: int| 0 <= k < piece.len() && piece[k] == ' ';
            assert(piece[k] == ' ');
            assert(!is_digit(' '));
            assert(false);
        }
    }
}

/// The token of a transport names that transport.
proof fn lemma_transport_reads_back(t: Transport)
    ensures
        transport_of(transport_text(t)) == Some(t),
{
    reveal_strlit("UDP");
    reveal_strlit("TCP");
    reveal_strlit("udp");
    reveal_strlit("tcp");
    assert(lowered("UDP"@) =~= "udp"@);
    assert(lowered("TCP"@) =~= "tcp"@);
    assert("tcp"@[0] != "udp"@[0]);
}

/// The token of an extended type names that type, and is not `host`.
proof fn lemma_type_reads_back(t: CandidateType)
    requires
        t != CandidateType::Host,
    ensures
        extended_type_of(type_text(t)) == Some(t),
        type_text(t) != "host"@,
{
    reveal_strlit("host");
    reveal_strlit("srflx");
    reveal_strlit("prflx");
    reveal_strlit("relay");
    assert(lowered("srflx"@) =~= "srflx"@);
    assert(lowered("prflx"@) =~= "prflx"@);
    assert(lowered("relay"@) =~= "relay"@);
    assert("prflx"@[0] != "srflx"@[0]);
    assert("relay"@[0] != "srflx"@[0]);
    assert("relay"@[0] != "prflx"@[0]);
}

/// Reading what `serialize` wrote gives the same candidate back, field by
/// field, for the host form and for the extended form.
pub proof fn lemma_serialize_then_parse(c: CandidateView)
    requires
        well_formed(c),
    ensures
        parse_candidate(candidate_text(c)) == Some(c),
{
    let prefix = "candidate:"@;
    let f = candidate_fields(c);
    let joined = join_with(f, ' ');
    let text = candidate_text(c);
    reveal_strlit("candidate:");
    reveal_strlit("typ");
    reveal_strlit("host");
    reveal_strlit("raddr");
    reveal_strlit("rport");
    lemma_fields_hold_no_space(c);
    // the one leading prefix is stripped, and no more
    assert(text.subrange(0, prefix.len() as int) =~= prefix);
    assert(text.skip(prefix.len() as int) =~= joined);
    lemma_join_head(f, ' ');
    let lead = c.foundation.push(' ');
    assert(f[0] == c.foundation);
    assert(joined.subrange(0, lead.len() as int) =~= lead);
    if prefix.is_prefix_of(joined) {
        if c.foundation.len() >= prefix.len() {
            assert(c.foundation.subrange(0, prefix.len() as int) =~= joined.subrange(
                0,
                prefix.len() as int,
            )) by {
                assert forall|k: int| 0 <= k < prefix.len() implies c.foundation[k] == joined[k] by {
                    assert(lead[k] == joined.subrange(0, lead.len() as int)[k]);
                }
            }
            assert(false);
        } else {
            let k = c.foundation.len() as int;
            assert(joined.subrange(0, lead.len() as int)[k] == ' ');
            assert(joined.subrange(0, prefix.len() as int)[k] == prefix[k]);
            assert(false);
        }
    }
    assert(strip_repeated(joined, prefix) == joined);
    assert(strip_repeated(text, prefix) == joined);
    lemma_split_join(f, ' ');
    assert(candidate_tokens(text) == f);
    // each field reads back as the value it was written from
    lemma_decimal_roundtrip(c.component_id as nat);
    lemma_decimal_roundtrip(c.priority as nat);
    lemma_decimal_roundtrip(c.port as nat);
    lemma_transport_reads_back(c.transport);
    assert(host_candidate(f[0], f[1], f[2], f[3], f[4], f[5]) is Some);
    if c.candidate_type == CandidateType::Host {
        assert(is_host_shape(f));
        assert(host_candidate(f[0], f[1], f[2], f[3], f[4], f[5]).unwrap() == c);
    } else {
        lemma_type_reads_back(c.candidate_type);
        lemma_decimal_roundtrip(c.related_port.unwrap() as nat);
        assert(!is_host_shape(f));
        assert(is_extended_shape(f));
        assert(extern_candidate(f[0], f[1], f[2], f[3], f[4], f[5], f[7], f[9], f[11]).unwrap()
            == c);
    }
}

/// Every candidate that the parser returns has one of the two valid
/// shapes.
pub proof fn lemma_parsed_is_well_formed(raw: Seq<char>)
    ensures
        parse_candidate(raw) matches Some(c) ==> well_formed(c),
{
    if let Some(c) = parse_candidate(raw) {
        let prefix = "candidate:"@;
        reveal_strlit("candidate:");
        let rest = strip_repeated(raw, prefix);
        let t = candidate_tokens(raw);
        lemma_strip_repeated_done(raw, prefix);
        lemma_split_pieces_clean(rest, ' ');
        lemma_split_first_is_prefix(rest, ' ');
        assert(!t[0].contains(' '));
        assert(!t[4].contains(' '));
        if prefix.is_prefix_of(t[0]) {
            assert(rest.subrange(0, prefix.len() as int) =~= t[0].subrange(0, prefix.len() as int))
                by {
                assert forall|k: int| 0 <= k < prefix.len() implies rest[k] == t[0][k] by {
                    assert(rest.subrange(0, t[0].len() as int)[k] == t[0][k]);
                }
            }
            assert(false);
        }
        if !is_host_shape(t) {
            assert(!t[9].contains(' '));
            assert(extended_type_of(t[7]) is Some);
        }
    }
}

/// A host-form candidate that is read, written and read again is the same
/// candidate: same foundation, component, transport, priority, address and
/// port, and the type host.
pub proof fn lemma_host_parse_serialize_parse(raw: Seq<char>)
    requires
        is_host_shape(candidate_tokens(raw)),
        parse_candidate(raw) is Some,
    ensures
        parse_candidate(raw).unwrap().candidate_type == CandidateType::Host,
        parse_candidate(candidate_text(parse_candidate(raw).unwrap())) == parse_candidate(raw),
{
    lemma_parsed_is_well_formed(raw);
    lemma_serialize_then_parse(parse_candidate(raw).unwrap());
}

/// Once the six leading fields convert and the type token names one of the
/// three extended types, the parsing succeeds exactly when the related
/// address and port are both present, under their keywords, and both
/// convert.
pub proof fn lemma_extended_needs_related_pair(raw: Seq<char>)
    requires
        candidate_tokens(raw).len() >= 8,
        candidate_tokens(raw)[6] == "typ"@,
        extended_type_of(candidate_tokens(raw)[7]) is Some,
        host_candidate(
            candidate_tokens(raw)[0],
            candidate_tokens(raw)[1],
            candidate_tokens(raw)[2],
            candidate_tokens(raw)[3],
            candidate_tokens(raw)[4],
            candidate_tokens(raw)[5],
        ) is Some,
    ensures
        parse_candidate(raw) is Some <==> {
            let t = candidate_tokens(raw);
            &&& t.len() >= 12
            &&& t[8] == "raddr"@
            &&& t[10] == "rport"@
            &&& address_accepts(t[9])
            &&& parse_unsigned(t[11], u32::MAX as nat) is Some
        },
        candidate_tokens(raw).len() < 12 ==> parse_candidate(raw) is None,
{
    let t = candidate_tokens(raw);
    reveal_strlit("host");
    reveal_strlit("srflx");
    reveal_strlit("prflx");
    reveal_strlit("relay");
    if t[7] == "host"@ {
        assert(lowered("host"@) =~= "host"@);
        assert(lowered("host"@).len() == 4);
        assert(false);
    }
}

} // verus!
