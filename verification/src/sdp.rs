//! A session description as a document of text lines: the session level and
//! the media sections, read from wire text and written back to it.

use vstd::prelude::*;

use crate::error::NegotiationError;
use crate::text::{
    from_chars, is_blank, is_blank_line, is_whitespace, is_whitespace_char, lines, lines_of,
    push_all, string_views, to_chars, views,
};

verus! {

/// One media section: the media line that opens it and the lines under it.
#[derive(Debug, Clone, PartialEq, Eq)]
pub struct MediaSection {
    pub header: String,
    pub attributes: Vec<String>,
}

/// A session description as text lines: the session-level lines, then the
/// media sections in the order in which the media-line index counts them.
#[derive(Debug, Clone, PartialEq, Eq)]
pub struct SdpDocument {
    pub session: Vec<String>,
    pub media: Vec<MediaSection>,
}

/// The mathematical value of a `MediaSection`.
pub ghost struct MediaSectionView {
    pub header: Seq<char>,
    pub attributes: Seq<Seq<char>>,
}

/// The mathematical value of an `SdpDocument`.
pub ghost struct SdpDocumentView {
    pub session: Seq<Seq<char>>,
    pub media: Seq<MediaSectionView>,
}

impl View for MediaSection {
    type V = MediaSectionView;

    open spec fn view(&self) -> MediaSectionView {
        MediaSectionView { header: self.header@, attributes: string_views(self.attributes@) }
    }
}

/// The values of a vector of media sections, in order.
pub open spec fn section_views(v: Seq<MediaSection>) -> Seq<MediaSectionView> {
    v.map_values(|m: MediaSection| m@)
}

impl View for SdpDocument {
    type V = SdpDocumentView;

    open spec fn view(&self) -> SdpDocumentView {
        SdpDocumentView { session: string_views(self.session@), media: section_views(self.media@) }
    }
}

/// The first position from `i` on that holds no white space; the length of
/// the line if there is none.
pub open spec fn skip_whitespace(line: Seq<char>, i: int) -> int
    decreases line.len() - i,
{
    if 0 <= i < line.len() && is_whitespace(line[i]) {
        skip_whitespace(line, i + 1)
    } else {
        i
    }
}

/// A media line opens a media section. Its type letter is `m`, in either
/// case; white space may stand before the letter and between the letter
/// and the equals sign, as the grammar validation allows it.
pub open spec fn is_media_line(line: Seq<char>) -> bool {
    let letter = skip_whitespace(line, 0);
    let sign = skip_whitespace(line, letter + 1);
    &&& 0 <= letter < line.len()
    &&& line[letter] == 'm' || line[letter] == 'M'
    &&& 0 <= sign < line.len()
    &&& line[sign] == '='
}

/// The document without any line.
pub open spec fn empty_document() -> SdpDocumentView {
    SdpDocumentView { session: Seq::empty(), media: Seq::empty() }
}

/// The document with one more line at its end: a media line opens a new
/// section, any other line goes under the last section, or to the session
/// level while there is no section yet.
pub open spec fn with_line(d: SdpDocumentView, line: Seq<char>) -> SdpDocumentView {
    if is_media_line(line) {
        SdpDocumentView {
            media: d.media.push(MediaSectionView { header: line, attributes: Seq::empty() }),
            ..d
        }
    } else if d.media.len() == 0 {
        SdpDocumentView { session: d.session.push(line), ..d }
    } else {
        let last = d.media.last();
        SdpDocumentView {
            media: d.media.update(
                d.media.len() - 1,
                MediaSectionView { attributes: last.attributes.push(line), ..last },
            ),
            ..d
        }
    }
}

/// The document that a sequence of lines makes up.
pub open spec fn document_of(lines: Seq<Seq<char>>) -> SdpDocumentView
    decreases lines.len(),
{
    if lines.len() == 0 {
        empty_document()
    } else {
        with_line(document_of(lines.drop_last()), lines.last())
    }
}

/// The lines of one media section: its media line, then the lines under it.
pub open spec fn section_lines(m: MediaSectionView) -> Seq<Seq<char>> {
    seq![m.header] + m.attributes
}

/// The lines of the media sections, one section after the other.
pub open spec fn media_lines(media: Seq<MediaSectionView>) -> Seq<Seq<char>>
    decreases media.len(),
{
    if media.len() == 0 {
        Seq::empty()
    } else {
        media_lines(media.drop_last()) + section_lines(media.last())
    }
}

/// All lines of a document, in the order in which they are written.
pub open spec fn document_lines(d: SdpDocumentView) -> Seq<Seq<char>> {
    d.session + media_lines(d.media)
}

/// The lines one after the other, each ended by a carriage return and a
/// line feed.
pub open spec fn terminated(lines: Seq<Seq<char>>) -> Seq<char>
    decreases lines.len(),
{
    if lines.len() == 0 {
        Seq::empty()
    } else {
        terminated(lines.drop_last()) + lines.last() + seq!['\r', '\n']
    }
}

/// A line terminator stands at position `i`.
pub open spec fn terminator_at(s: Seq<char>, i: int) -> bool {
    0 <= i && i + 1 < s.len() && s[i] == '\r' && s[i + 1] == '\n'
}

/// The terminator at position `i` directly follows another terminator.
pub open spec fn repeats_terminator(s: Seq<char>, i: int) -> bool {
    terminator_at(s, i) && terminator_at(s, i - 2)
}

/// The character at position `i` belongs to a terminator that directly
/// follows another one.
pub open spec fn is_surplus(s: Seq<char>, i: int) -> bool {
    repeats_terminator(s, i) || repeats_terminator(s, i - 1)
}

/// The first `n` characters of `s` without the surplus ones.
pub open spec fn collapsed_prefix(s: Seq<char>, n: int) -> Seq<char>
    decreases n,
{
    if n <= 0 {
        Seq::empty()
    } else if is_surplus(s, n - 1) {
        collapsed_prefix(s, n - 1)
    } else {
        collapsed_prefix(s, n - 1).push(s[n - 1])
    }
}

/// `s` with every run of line terminators reduced to its first.
pub open spec fn collapsed(s: Seq<char>) -> Seq<char> {
    collapsed_prefix(s, s.len() as int)
}

/// Two line terminators stand at position `i` with nothing between them.
pub open spec fn doubled_at(s: Seq<char>, i: int) -> bool {
    terminator_at(s, i) && terminator_at(s, i + 2)
}

/// Two line terminators stand somewhere in `s` with nothing between them.
pub open spec fn has_doubled_terminator(s: Seq<char>) -> bool {
    exists|i: int| doubled_at(s, i)
}

/// The wire text of a document.
pub open spec fn document_text(d: SdpDocumentView) -> Seq<char> {
    collapsed(terminated(document_lines(d)))
}

/// A document that is made of lines holds exactly those lines, in their
/// order.
pub proof fn lemma_document_keeps_lines(lines: Seq<Seq<char>>)
    ensures
        document_lines(document_of(lines)) == lines,
    decreases lines.len(),
{
    if lines.len() == 0 {
        assert(document_lines(empty_document()) =~= lines);
    } else {
        let head = lines.drop_last();
        let line = lines.last();
        lemma_document_keeps_lines(head);
        let d = document_of(head);
        let next = with_line(d, line);
        if is_media_line(line) {
            let m = MediaSectionView { header: line, attributes: Seq::empty() };
            assert(d.media.push(m).drop_last() =~= d.media);
            assert(section_lines(m) =~= seq![line]);
            assert(document_lines(next) =~= document_lines(d).push(line));
        } else if d.media.len() == 0 {
            assert(document_lines(next) =~= document_lines(d).push(line));
        } else {
            let last = d.media.last();
            let grown = MediaSectionView { attributes: last.attributes.push(line), ..last };
            assert(next.media.drop_last() =~= d.media.drop_last());
            assert(next.media.last() == grown);
            assert(section_lines(grown) =~= section_lines(last).push(line));
            assert(document_lines(next) =~= document_lines(d).push(line));
        }
        assert(head.push(line) =~= lines);
    }
}

/// The text ends with a line terminator.
pub open spec fn ends_with_terminator(s: Seq<char>) -> bool {
    s.len() >= 2 && s[s.len() - 2] == '\r' && s[s.len() - 1] == '\n'
}

/// What holds of every collapsed prefix: a surplus character leaves the
/// result ending with a terminator, a result that ends with a terminator
/// stems from a text that does, and no terminator is doubled.
proof fn lemma_collapsed_prefix_facts(s: Seq<char>, n: int)
    requires
        0 <= n <= s.len(),
    ensures
        collapsed_prefix(s, n).len() <= n,
        n >= 1 && is_surplus(s, n - 1) ==> ends_with_terminator(collapsed_prefix(s, n)),
        ends_with_terminator(collapsed_prefix(s, n)) && !repeats_terminator(s, n - 1)
            ==> terminator_at(s, n - 2),
        !has_doubled_terminator(collapsed_prefix(s, n)),
    decreases n,
{
    let out = collapsed_prefix(s, n);
    if n == 0 {
        assert(!has_doubled_terminator(out));
    } else {
        lemma_collapsed_prefix_facts(s, n - 1);
        let before = collapsed_prefix(s, n - 1);
        if n >= 2 {
            lemma_collapsed_prefix_facts(s, n - 2);
        }
        if is_surplus(s, n - 1) {
            assert(out == before);
            if repeats_terminator(s, n - 1) {
                // position n - 1 opens a surplus terminator; the one before it ends at n - 2
                assert(terminator_at(s, n - 3));
                if !is_surplus(s, n - 2) {
                    assert(!repeats_terminator(s, n - 3));
                    assert(!repeats_terminator(s, n - 4));
                    assert(!is_surplus(s, n - 3));
                    let before2 = collapsed_prefix(s, n - 2);
                    assert(before == before2.push(s[n - 2]));
                    assert(before2 == collapsed_prefix(s, n - 3).push(s[n - 3]));
                }
            }
        } else {
            assert(out == before.push(s[n - 1]));
            if ends_with_terminator(out) {
                assert(before.len() >= 1 && before.last() == '\r');
                assert(n >= 2);
                assert(!is_surplus(s, n - 2));
                assert(before == collapsed_prefix(s, n - 2).push(s[n - 2]));
            }
            if has_doubled_terminator(out) {
                let j = choose|j: int| doubled_at(out, j);
                if j + 4 <= before.len() {
                    assert(doubled_at(before, j));
                    assert(false);
                } else {
                    assert(j + 4 == out.len());
                    assert(s[n - 1] == '\n');
                    assert(before.last() == '\r');
                    assert(before[before.len() - 2] == '\n');
                    assert(before[before.len() - 3] == '\r');
                    assert(!is_surplus(s, n - 2));
                    let before2 = collapsed_prefix(s, n - 2);
                    assert(before == before2.push(s[n - 2]));
                    assert(s[n - 2] == '\r');
                    assert(ends_with_terminator(before2));
                    assert(!repeats_terminator(s, n - 3));
                    assert(terminator_at(s, n - 4));
                    assert(repeats_terminator(s, n - 2));
                    assert(false);
                }
            }
        }
    }
}

/// Collapsing leaves no two line terminators with nothing between them,
/// whatever the text was.
pub proof fn lemma_collapsed_has_no_doubled_terminator(s: Seq<char>)
    ensures
        !has_doubled_terminator(collapsed(s)),
{
    lemma_collapsed_prefix_facts(s, s.len() as int);
}

/// The wire text of a document never holds two consecutive line
/// terminators, whatever the document holds.
pub proof fn lemma_document_text_has_no_doubled_terminator(d: SdpDocumentView)
    ensures
        !has_doubled_terminator(document_text(d)),
{
    lemma_collapsed_has_no_doubled_terminator(terminated(document_lines(d)));
}

fn terminator_stands_at(s: &Vec<char>, i: usize) -> (r: bool)
    ensures
        r == terminator_at(s@, i as int),
{
    i < s.len() && s.len() - i >= 2 && s[i] == '\r' && s[i + 1] == '\n'
}

fn is_surplus_at(s: &Vec<char>, i: usize) -> (r: bool)
    ensures
        r == is_surplus(s@, i as int),
{
    (i >= 2 && terminator_stands_at(s, i) && terminator_stands_at(s, i - 2)) || (i >= 3
        && terminator_stands_at(s, i - 1) && terminator_stands_at(s, i - 3))
}

/// Reduces every run of line terminators in `s` to its first.
pub fn collapse_terminators(s: &Vec<char>) -> (out: Vec<char>)
    ensures
        out@ == collapsed(s@),
        !has_doubled_terminator(out@),
{
    let mut out: Vec<char> = Vec::new();
    let mut i: usize = 0;
    while i < s.len()
        invariant
            i <= s.len(),
            out@ == collapsed_prefix(s@, i as int),
        decreases s.len() - i,
    {
        if !is_surplus_at(s, i) {
            out.push(s[i]);
        }
        i += 1;
    }
    proof {
        lemma_collapsed_has_no_doubled_terminator(s@);
    }
    out
}

/// The lines that are not blank, in order.
pub open spec fn without_blank(lines: Seq<Seq<char>>) -> Seq<Seq<char>>
    decreases lines.len(),
{
    if lines.len() == 0 {
        Seq::empty()
    } else if is_blank(lines.last()) {
        without_blank(lines.drop_last())
    } else {
        without_blank(lines.drop_last()).push(lines.last())
    }
}

/// The document that a text is read as: its lines, without the blank ones,
/// grouped into the session level and the media sections.
pub open spec fn parsed_document(text: Seq<char>) -> SdpDocumentView {
    document_of(without_blank(lines_of(text)))
}

/// The document with one more line at the end of the media section `index`.
pub open spec fn with_attribute(d: SdpDocumentView, index: int, line: Seq<char>) -> SdpDocumentView
    recommends
        0 <= index < d.media.len(),
{
    SdpDocumentView {
        media: d.media.update(
            index,
            MediaSectionView {
                attributes: d.media[index].attributes.push(line),
                ..d.media[index]
            },
        ),
        ..d
    }
}

/// A text that is read and written again keeps its lines that are not
/// blank, in their order, each with a full line end.
pub proof fn lemma_parse_then_serialize(text: Seq<char>)
    ensures
        document_text(parsed_document(text)) == collapsed(
            terminated(without_blank(lines_of(text))),
        ),
{
    lemma_document_keeps_lines(without_blank(lines_of(text)));
}

/// Whether `webrtc_sdp::parse_sdp`, called without failing on warnings,
/// accepts the text as a session description.
pub uninterp spec fn sdp_accepts(text: Seq<char>) -> bool;

/// Asks `webrtc_sdp::parse_sdp` whether the text is a session description
/// that it accepts; lines that it only warns about do not make it fail. The
/// answer depends on the text alone; nothing is proved of it here.
#[verifier::external_body]
fn sdp_is_valid(sdp: &str) -> (ok: bool)
    ensures
        ok == sdp_accepts(sdp@),
{
    webrtc_sdp::parse_sdp(sdp, false).is_ok()
}

/// The first position from `from` on that holds no white space.
fn skip_whitespace_from(line: &Vec<char>, from: usize) -> (at: usize)
    requires
        from <= line.len(),
    ensures
        at == skip_whitespace(line@, from as int),
        from <= at <= line.len(),
{
    let mut at: usize = from;
    while at < line.len() && is_whitespace_char(line[at])
        invariant
            from <= at <= line.len(),
            skip_whitespace(line@, at as int) == skip_whitespace(line@, from as int),
        decreases line.len() - at,
    {
        at += 1;
    }
    at
}

fn is_media_header(line: &Vec<char>) -> (r: bool)
    ensures
        r == is_media_line(line@),
{
    let letter = skip_whitespace_from(line, 0);
    if letter >= line.len() || !(line[letter] == 'm' || line[letter] == 'M') {
        return false;
    }
    let sign = skip_whitespace_from(line, letter + 1);
    sign < line.len() && line[sign] == '='
}

proof fn lemma_terminated_push(lines: Seq<Seq<char>>, line: Seq<char>)
    ensures
        terminated(lines.push(line)) == terminated(lines) + line + seq!['\r', '\n'],
{
    assert(lines.push(line).drop_last() =~= lines);
}

proof fn lemma_media_lines_push(media: Seq<MediaSectionView>, m: MediaSectionView)
    ensures
        media_lines(media.push(m)) == media_lines(media) + section_lines(m),
{
    assert(media.push(m).drop_last() =~= media);
}

impl SdpDocument {
    /// A document without any line.
    pub fn new() -> (r: SdpDocument)
        ensures
            r@ == empty_document(),
    {
        let r = SdpDocument { session: Vec::new(), media: Vec::new() };
        assert(r@.session =~= Seq::empty());
        assert(r@.media =~= Seq::empty());
        r
    }

    /// The number of media sections.
    pub fn media_count(&self) -> (n: usize)
        ensures
            n == self@.media.len(),
    {
        self.media.len()
    }

    /// Adds a line at the end of the document.
    pub fn push_line(&mut self, line: String)
        ensures
            final(self)@ == with_line(old(self)@, line@),
    {
        let chars = to_chars(line.as_str());
        let n: usize = self.media.len();
        if is_media_header(&chars) {
            self.media.push(MediaSection { header: line, attributes: Vec::new() });
            proof {
                let added = MediaSectionView { header: line@, attributes: Seq::empty() };
                assert(self.media@.last()@.attributes =~= Seq::empty());
                assert(self@.media =~= old(self)@.media.push(added));
            }
        } else if n == 0 {
            self.session.push(line);
            assert(self@.session =~= old(self)@.session.push(line@));
        } else {
            self.media[n - 1].attributes.push(line);
            proof {
                let last = old(self)@.media.last();
                assert(self.media@[n - 1]@.attributes =~= last.attributes.push(line@));
                assert(self@.media =~= old(self)@.media.update(
                    n - 1,
                    MediaSectionView { attributes: last.attributes.push(line@), ..last },
                ));
            }
        }
    }

    /// Adds a line at the end of the media section `index`, if the document
    /// has such a section. Returns whether it has.
    pub fn add_attribute(&mut self, index: usize, line: String) -> (added: bool)
        ensures
            added == (index < old(self)@.media.len()),
            added ==> final(self)@ == with_attribute(old(self)@, index as int, line@),
            !added ==> final(self)@ == old(self)@,
    {
        if index >= self.media.len() {
            return false;
        }
        self.media[index].attributes.push(line);
        proof {
            let m = old(self)@.media[index as int];
            assert(self.media@[index as int]@.attributes =~= m.attributes.push(line@));
            assert(self@.media =~= old(self)@.media.update(
                index as int,
                MediaSectionView { attributes: m.attributes.push(line@), ..m },
            ));
        }
        true
    }

    /// Reads a text as a document, without asking whether it is valid.
    fn read(text: &str) -> (r: SdpDocument)
        ensures
            r@ == parsed_document(text@),
    {
        let chars = to_chars(text);
        let all = lines(&chars);
        let mut doc = SdpDocument::new();
        let mut i: usize = 0;
        while i < all.len()
            invariant
                i <= all.len(),
                doc@ == document_of(without_blank(views(all@).subrange(0, i as int))),
            decreases all.len() - i,
        {
            proof {
                assert(views(all@).subrange(0, i + 1).drop_last() =~= views(all@).subrange(
                    0,
                    i as int,
                ));
            }
            if !is_blank_line(&all[i]) {
                let ghost kept = without_blank(views(all@).subrange(0, i as int));
                doc.push_line(from_chars(&all[i]));
                assert(kept.push(all@[i as int]@).drop_last() =~= kept);
            }
            i += 1;
        }
        assert(views(all@).subrange(0, all.len() as int) =~= views(all@));
        doc
    }

    /// Reads a session description. The text must pass the strict grammar
    /// validation; one that does not is reported as malformed and no
    /// document is made of it.
    pub fn parse(raw: &str) -> (r: Result<SdpDocument, NegotiationError>)
        ensures
            match r {
                Ok(doc) => sdp_accepts(raw@) && doc@ == parsed_document(raw@),
                Err(e) => !sdp_accepts(raw@) && e == NegotiationError::MalformedSdp,
            },
    {
        if sdp_is_valid(raw) {
            Ok(SdpDocument::read(raw))
        } else {
            Err(NegotiationError::MalformedSdp)
        }
    }

    /// The lines of the document, in the order in which they are written.
    fn all_lines(&self) -> (all: Vec<Vec<char>>)
        ensures
            views(all@) == document_lines(self@),
    {
        let mut all: Vec<Vec<char>> = Vec::new();
        let mut i: usize = 0;
        while i < self.session.len()
            invariant
                i <= self.session.len(),
                views(all@) == self@.session.subrange(0, i as int),
            decreases self.session.len() - i,
        {
            let ghost done = views(all@);
            all.push(to_chars(self.session[i].as_str()));
            assert(views(all@) =~= done.push(self.session@[i as int]@));
            i += 1;
            assert(self@.session.subrange(0, i as int) =~= done.push(self.session@[i - 1]@));
        }
        assert(self@.session.subrange(0, self.session.len() as int) =~= self@.session);
        let mut j: usize = 0;
        assert(self@.media.subrange(0, 0) =~= Seq::empty());
        assert(views(all@) =~= self@.session + media_lines(self@.media.subrange(0, 0)));
        while j < self.media.len()
            invariant
                j <= self.media.len(),
                views(all@) == self@.session + media_lines(self@.media.subrange(0, j as int)),
            decreases self.media.len() - j,
        {
            let section = &self.media[j];
            let ghost before = views(all@);
            all.push(to_chars(section.header.as_str()));
            assert(views(all@) =~= before + seq![section@.header]);
            let mut k: usize = 0;
            while k < section.attributes.len()
                invariant
                    k <= section.attributes.len(),
                    views(all@) == before + seq![section@.header] + section@.attributes.subrange(
                        0,
                        k as int,
                    ),
                decreases section.attributes.len() - k,
            {
                let ghost done = views(all@);
                all.push(to_chars(section.attributes[k].as_str()));
                assert(views(all@) =~= done.push(section.attributes@[k as int]@));
                k += 1;
                assert(section@.attributes.subrange(0, k as int) =~= section@.attributes.subrange(
                    0,
                    k - 1,
                ).push(section.attributes@[k - 1]@));
                assert(views(all@) =~= before + seq![section@.header]
                    + section@.attributes.subrange(0, k as int));
            }
            proof {
                assert(section@.attributes.subrange(0, section.attributes.len() as int)
                    =~= section@.attributes);
                let done = self@.media.subrange(0, j as int);
                lemma_media_lines_push(done, section@);
                assert(done.push(section@) =~= self@.media.subrange(0, j + 1));
                assert(views(all@) =~= self@.session + media_lines(
                    self@.media.subrange(0, j + 1),
                ));
            }
            j += 1;
        }
        assert(self@.media.subrange(0, self.media.len() as int) =~= self@.media);
        all
    }

    /// Writes the document as wire text: every line ended by a carriage
    /// return and a line feed, and never two line ends in a row.
    pub fn serialize(&self) -> (r: String)
        ensures
            r@ == document_text(self@),
            !has_doubled_terminator(r@),
    {
        let all = self.all_lines();
        let mut text: Vec<char> = Vec::new();
        let mut i: usize = 0;
        assert(views(all@).subrange(0, 0) =~= Seq::empty());
        while i < all.len()
            invariant
                i <= all.len(),
                text@ == terminated(views(all@).subrange(0, i as int)),
            decreases all.len() - i,
        {
            proof {
                lemma_terminated_push(views(all@).subrange(0, i as int), all@[i as int]@);
                assert(views(all@).subrange(0, i as int).push(all@[i as int]@) =~= views(
                    all@,
                ).subrange(0, i + 1));
            }
            push_all(&mut text, &all[i]);
            text.push('\r');
            text.push('\n');
            i += 1;
            assert(text@ =~= terminated(views(all@).subrange(0, i as int)));
        }
        assert(views(all@).subrange(0, all.len() as int) =~= views(all@));
        let out = collapse_terminators(&text);
        from_chars(&out)
    }
}

} // verus!
