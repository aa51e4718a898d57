//! Texts as sequences of characters: cutting, joining, comparing.

use vstd::prelude::*;
use vstd::std_specs::iter::IteratorSpec;

verus! {

/// The views of a vector of character vectors, in order.
pub open spec fn views(v: Seq<Vec<char>>) -> Seq<Seq<char>> {
    v.map_values(|t: Vec<char>| t@)
}

/// The views of a vector of strings, in order.
pub open spec fn string_views(v: Seq<String>) -> Seq<Seq<char>> {
    v.map_values(|t: String| t@)
}

/// `s` cut at every occurrence of `sep`. Empty pieces are kept, so the result
/// always holds one piece more than `s` holds separators.
pub open spec fn split_on(s: Seq<char>, sep: char) -> Seq<Seq<char>>
    decreases s.len(),
{
    if s.len() == 0 {
        seq![Seq::<char>::empty()]
    } else {
        let init = split_on(s.drop_last(), sep);
        if s.last() == sep {
            init.push(Seq::<char>::empty())
        } else {
            init.update(init.len() - 1, init.last().push(s.last()))
        }
    }
}

/// The pieces joined again, with `sep` between each two neighbours.
pub open spec fn join_with(pieces: Seq<Seq<char>>, sep: char) -> Seq<char>
    decreases pieces.len(),
{
    if pieces.len() == 0 {
        Seq::<char>::empty()
    } else if pieces.len() == 1 {
        pieces[0]
    } else {
        join_with(pieces.drop_last(), sep).push(sep) + pieces.last()
    }
}

/// A split always has a first piece.
pub proof fn lemma_split_nonempty(s: Seq<char>, sep: char)
    ensures
        split_on(s, sep).len() >= 1,
    decreases s.len(),
{
    if s.len() > 0 {
        lemma_split_nonempty(s.drop_last(), sep);
    }
}

/// No piece of a split holds the separator.
pub proof fn lemma_split_pieces_clean(s: Seq<char>, sep: char)
    ensures
        forall|i: int| 0 <= i < split_on(s, sep).len() ==> !(#[trigger] split_on(s, sep)[i]).contains(sep),
    decreases s.len(),
{
    if s.len() > 0 {
        lemma_split_pieces_clean(s.drop_last(), sep);
        lemma_split_nonempty(s.drop_last(), sep);
        let init = split_on(s.drop_last(), sep);
        if s.last() != sep {
            let grown = init.last().push(s.last());
            assert forall|k: int| 0 <= k < grown.len() implies grown[k] != sep by {
                if k < init.last().len() {
                    assert(init.last().contains(init.last()[k]));
                }
            }
        }
    }
}

/// Appending a separator-free text to `s` extends the last piece of the split.
pub proof fn lemma_split_append_clean(s: Seq<char>, t: Seq<char>, sep: char)
    requires
        !t.contains(sep),
    ensures
        split_on(s + t, sep) == split_on(s, sep).update(
            split_on(s, sep).len() - 1,
            split_on(s, sep).last() + t,
        ),
    decreases t.len(),
{
    lemma_split_nonempty(s, sep);
    let base = split_on(s, sep);
    if t.len() == 0 {
        assert(s + t =~= s);
        assert(base.last() + t =~= base.last());
        assert(base.update(base.len() - 1, base.last()) =~= base);
    } else {
        let t0 = t.drop_last();
        assert(t.contains(t.last()));
        assert forall|k: int| 0 <= k < t0.len() implies t0[k] != sep by {
            assert(t.contains(t[k]));
        }
        lemma_split_append_clean(s, t0, sep);
        assert((s + t).drop_last() =~= s + t0);
        assert((s + t).last() == t.last());
        let init = split_on(s + t0, sep);
        assert(init.last().push(t.last()) =~= base.last() + t);
        assert(init.update(init.len() - 1, init.last().push(t.last())) =~= base.update(
            base.len() - 1,
            base.last() + t,
        ));
    }
}

/// Splitting a joined sequence of separator-free pieces gives the pieces back.
pub proof fn lemma_split_join(pieces: Seq<Seq<char>>, sep: char)
    requires
        pieces.len() >= 1,
        forall|i: int| 0 <= i < pieces.len() ==> !(#[trigger] pieces[i]).contains(sep),
    ensures
        split_on(join_with(pieces, sep), sep) == pieces,
    decreases pieces.len(),
{
    if pieces.len() == 1 {
        let empty = Seq::<char>::empty();
        lemma_split_append_clean(empty, pieces[0], sep);
        assert(empty + pieces[0] =~= pieces[0]);
        assert(split_on(empty, sep) =~= seq![empty]);
        assert(seq![empty].update(0, empty + pieces[0]) =~= pieces);
    } else {
        let head = pieces.drop_last();
        lemma_split_join(head, sep);
        let joined = join_with(head, sep);
        let cut = joined.push(sep);
        assert(cut.drop_last() =~= joined);
        assert(split_on(cut, sep) == head.push(Seq::<char>::empty()));
        lemma_split_append_clean(cut, pieces.last(), sep);
        assert(Seq::<char>::empty() + pieces.last() =~= pieces.last());
        assert(head.push(Seq::<char>::empty()).update(head.len() as int, pieces.last())
            =~= pieces);
    }
}

/// Joining the pieces of a split gives the text back. With
/// `lemma_split_pieces_clean` this says what a split is: the one way to cut
/// the text into pieces that hold no separator.
pub proof fn lemma_join_split(s: Seq<char>, sep: char)
    ensures
        join_with(split_on(s, sep), sep) == s,
    decreases s.len(),
{
    if s.len() == 0 {
        assert(split_on(s, sep)[0] =~= s);
    } else {
        let head = s.drop_last();
        lemma_join_split(head, sep);
        lemma_split_nonempty(head, sep);
        let init = split_on(head, sep);
        if s.last() == sep {
            let empty = Seq::<char>::empty();
            assert(init.push(empty).drop_last() =~= init);
            assert(head.push(sep) + empty =~= s);
        } else {
            let grown = init.update(init.len() - 1, init.last().push(s.last()));
            if init.len() == 1 {
                assert(grown[0] =~= s);
            } else {
                assert(grown.drop_last() =~= init.drop_last());
                assert(join_with(init.drop_last(), sep).push(sep) + init.last().push(s.last())
                    =~= (join_with(init.drop_last(), sep).push(sep) + init.last()).push(s.last()));
                assert(head.push(s.last()) =~= s);
            }
        }
    }
}

/// The first piece of a split is the text up to the first separator.
pub proof fn lemma_split_first_is_prefix(s: Seq<char>, sep: char)
    ensures
        split_on(s, sep)[0].is_prefix_of(s),
        split_on(s, sep).len() == 1 ==> split_on(s, sep)[0] == s,
        split_on(s, sep).len() >= 1,
    decreases s.len(),
{
    if s.len() > 0 {
        let head = s.drop_last();
        lemma_split_first_is_prefix(head, sep);
        let init = split_on(head, sep);
        assert(init[0] =~= head.subrange(0, init[0].len() as int));
        assert(head.subrange(0, init[0].len() as int) =~= s.subrange(0, init[0].len() as int));
        if s.last() != sep && init.len() == 1 {
            assert(init[0].push(s.last()) =~= s);
            assert(s.subrange(0, s.len() as int) =~= s);
        }
    } else {
        assert(s.subrange(0, 0) =~= s);
    }
}

/// A join of two or more pieces begins with the first piece and a separator.
pub proof fn lemma_join_head(pieces: Seq<Seq<char>>, sep: char)
    requires
        pieces.len() >= 2,
    ensures
        pieces[0].push(sep).is_prefix_of(join_with(pieces, sep)),
    decreases pieces.len(),
{
    let head = pieces.drop_last();
    let lead = pieces[0].push(sep);
    let all = join_with(pieces, sep);
    if head.len() == 1 {
        assert(join_with(head, sep) == pieces[0]);
        assert(all.subrange(0, lead.len() as int) =~= lead);
    } else {
        lemma_join_head(head, sep);
        let inner = join_with(head, sep);
        assert(inner.subrange(0, lead.len() as int) =~= lead);
        assert(all.subrange(0, lead.len() as int) =~= inner.subrange(0, lead.len() as int));
    }
}

/// The characters of a string, in order.
pub fn to_chars(s: &str) -> (out: Vec<char>)
    ensures
        out@ == s@,
{
    broadcast use {vstd::string::axiom_spec_iter, vstd::string::next_postcondition};

    let mut out: Vec<char> = Vec::new();
    let n: usize = s.unicode_len();
    let mut rest = s.chars();
    loop
        invariant
            out@ + rest.remaining() == s@,
            n == s@.len(),
        ensures
            out@ == s@,
        decreases n - out@.len(),
    {
        let ghost before = rest.remaining();
        match rest.next() {
            Some(c) => {
                out.push(c);
                assert(out@ + rest.remaining() =~= s@) by {
                    assert(before =~= seq![c] + before.drop_first());
                }
            },
            None => {
                assert(out@ =~= s@);
                break ;
            },
        }
    }
    out
}

/// `std::string::String::push` appends the character to the end of the
/// string.
pub assume_specification[ String::push ](s: &mut String, c: char)
    ensures
        final(s)@ == old(s)@.push(c),
;

/// The string that holds the given characters, in order.
pub fn from_chars(v: &Vec<char>) -> (out: String)
    ensures
        out@ == v@,
{
    let mut out = String::new();
    let mut i: usize = 0;
    while i < v.len()
        invariant
            i <= v.len(),
            out@ == v@.subrange(0, i as int),
        decreases v.len() - i,
    {
        out.push(v[i]);
        i += 1;
        assert(v@.subrange(0, i as int) =~= v@.subrange(0, i - 1).push(v@[i - 1]));
    }
    assert(v@.subrange(0, v.len() as int) =~= v@);
    out
}

/// Cuts `s` at every `sep`, keeping empty pieces.
pub fn split(s: &Vec<char>, sep: char) -> (out: Vec<Vec<char>>)
    ensures
        views(out@) == split_on(s@, sep),
{
    let mut out: Vec<Vec<char>> = Vec::new();
    let mut current: Vec<char> = Vec::new();
    let mut i: usize = 0;
    while i < s.len()
        invariant
            i <= s.len(),
            views(out@).push(current@) == split_on(s@.subrange(0, i as int), sep),
        decreases s.len() - i,
    {
        let ghost before = split_on(s@.subrange(0, i as int), sep);
        let ghost done = views(out@);
        let ghost cur = current@;
        let c = s[i];
        proof {
            assert(s@.subrange(0, i + 1).drop_last() =~= s@.subrange(0, i as int));
            assert(s@.subrange(0, i + 1).last() == c);
        }
        if c == sep {
            out.push(current);
            current = Vec::new();
            proof {
                assert(views(out@) =~= done.push(cur));
                assert(current@ =~= Seq::<char>::empty());
            }
        } else {
            current.push(c);
            proof {
                assert(done.push(current@) =~= before.update(
                    before.len() - 1,
                    before.last().push(c),
                ));
            }
        }
        i += 1;
    }
    assert(s@.subrange(0, s.len() as int) =~= s@);
    let ghost done = views(out@);
    let ghost cur = current@;
    out.push(current);
    assert(views(out@) =~= done.push(cur));
    out
}

/// `s` without every leading repetition of the non-empty text `p`.
pub open spec fn strip_repeated(s: Seq<char>, p: Seq<char>) -> Seq<char>
    decreases s.len(),
{
    if p.len() > 0 && p.is_prefix_of(s) {
        strip_repeated(s.skip(p.len() as int), p)
    } else {
        s
    }
}

/// What `strip_repeated` leaves does not begin with the stripped text.
pub proof fn lemma_strip_repeated_done(s: Seq<char>, p: Seq<char>)
    requires
        p.len() > 0,
    ensures
        !p.is_prefix_of(strip_repeated(s, p)),
    decreases s.len(),
{
    if p.is_prefix_of(s) {
        lemma_strip_repeated_done(s.skip(p.len() as int), p);
    }
}

/// The upper-case Latin letters mapped to lower case, every other character kept.
pub open spec fn lower(c: char) -> char {
    if 'A' <= c && c <= 'Z' {
        ((c as u8) + 32u8) as char
    } else {
        c
    }
}

/// A text with its upper-case Latin letters mapped to lower case.
pub open spec fn lowered(s: Seq<char>) -> Seq<char> {
    s.map_values(|c: char| lower(c))
}

/// Whether two character vectors hold the same text.
pub fn same_chars(a: &Vec<char>, b: &Vec<char>) -> (r: bool)
    ensures
        r == (a@ == b@),
{
    if a.len() != b.len() {
        return false;
    }
    let mut i: usize = 0;
    while i < a.len()
        invariant
            i <= a.len(),
            a.len() == b.len(),
            a@.subrange(0, i as int) == b@.subrange(0, i as int),
        decreases a.len() - i,
    {
        if a[i] != b[i] {
            return false;
        }
        i += 1;
        assert(a@.subrange(0, i as int) =~= a@.subrange(0, i - 1).push(a@[i - 1]));
        assert(b@.subrange(0, i as int) =~= b@.subrange(0, i - 1).push(b@[i - 1]));
    }
    assert(a@.subrange(0, a.len() as int) =~= a@);
    assert(b@.subrange(0, b.len() as int) =~= b@);
    true
}

/// Whether a character vector holds exactly the characters of `lit`.
pub fn is_text(v: &Vec<char>, lit: &str) -> (r: bool)
    ensures
        r == (v@ == lit@),
{
    let other = to_chars(lit);
    same_chars(v, &other)
}

/// Maps the upper-case Latin letters of a text to lower case.
pub fn to_lower(v: &Vec<char>) -> (out: Vec<char>)
    ensures
        out@ == lowered(v@),
{
    let mut out: Vec<char> = Vec::new();
    let mut i: usize = 0;
    while i < v.len()
        invariant
            i <= v.len(),
            out@ == lowered(v@.subrange(0, i as int)),
        decreases v.len() - i,
    {
        let c = v[i];
        let l = if 'A' <= c && c <= 'Z' {
            ((c as u8) + 32u8) as char
        } else {
            c
        };
        out.push(l);
        i += 1;
        assert(lowered(v@.subrange(0, i as int)) =~= lowered(v@.subrange(0, i - 1)).push(l));
    }
    assert(v@.subrange(0, v.len() as int) =~= v@);
    out
}

/// Whether `p` stands in `s` at position `at`.
pub fn has_prefix_at(s: &Vec<char>, at: usize, p: &Vec<char>) -> (r: bool)
    requires
        at <= s.len(),
    ensures
        r == p@.is_prefix_of(s@.skip(at as int)),
{
    if p.len() > s.len() - at {
        return false;
    }
    let ghost rest = s@.skip(at as int);
    let mut i: usize = 0;
    while i < p.len()
        invariant
            i <= p.len(),
            at <= s.len(),
            p.len() <= s.len() - at,
            rest == s@.skip(at as int),
            p@.subrange(0, i as int) == rest.subrange(0, i as int),
        decreases p.len() - i,
    {
        if p[i] != s[at + i] {
            assert(rest.subrange(0, p.len() as int)[i as int] != p@[i as int]);
            return false;
        }
        i += 1;
        assert(p@.subrange(0, i as int) =~= p@.subrange(0, i - 1).push(p@[i - 1]));
        assert(rest.subrange(0, i as int) =~= rest.subrange(0, i - 1).push(rest[i - 1]));
    }
    assert(p@.subrange(0, p.len() as int) =~= p@);
    true
}

/// The part of `s` from position `from` on.
pub fn tail_from(s: &Vec<char>, from: usize) -> (out: Vec<char>)
    requires
        from <= s.len(),
    ensures
        out@ == s@.skip(from as int),
{
    let mut out: Vec<char> = Vec::new();
    let mut i: usize = from;
    while i < s.len()
        invariant
            from <= i <= s.len(),
            out@ == s@.subrange(from as int, i as int),
        decreases s.len() - i,
    {
        out.push(s[i]);
        i += 1;
        assert(s@.subrange(from as int, i as int) =~= s@.subrange(from as int, i - 1).push(
            s@[i - 1],
        ));
    }
    assert(s@.subrange(from as int, s.len() as int) =~= s@.skip(from as int));
    out
}

/// Removes every leading repetition of the text `p` from `s`. An empty `p`
/// removes nothing.
pub fn strip_prefix_repeated(s: &Vec<char>, p: &Vec<char>) -> (out: Vec<char>)
    ensures
        out@ == strip_repeated(s@, p@),
{
    let mut at: usize = 0;
    assert(s@.skip(0) =~= s@);
    if p.len() == 0 {
        return tail_from(s, 0);
    }
    while has_prefix_at(s, at, p)
        invariant
            at <= s.len(),
            p@.len() > 0,
            strip_repeated(s@, p@) == strip_repeated(s@.skip(at as int), p@),
        decreases s.len() - at,
    {
        assert(s@.skip(at as int).skip(p@.len() as int) =~= s@.skip(at + p@.len()));
        at += p.len();
    }
    tail_from(s, at)
}

/// Appends the characters of `piece` to `out`.
pub fn push_all(out: &mut Vec<char>, piece: &Vec<char>)
    ensures
        final(out)@ == old(out)@ + piece@,
{
    let mut i: usize = 0;
    while i < piece.len()
        invariant
            i <= piece.len(),
            out@ == old(out)@ + piece@.subrange(0, i as int),
        decreases piece.len() - i,
    {
        out.push(piece[i]);
        i += 1;
        assert(old(out)@ + piece@.subrange(0, i as int) =~= (old(out)@ + piece@.subrange(
            0,
            i - 1,
        )).push(piece@[i - 1]));
    }
    assert(piece@.subrange(0, piece.len() as int) =~= piece@);
}

/// Joins the pieces, with `sep` between each two neighbours.
pub fn join(pieces: &Vec<Vec<char>>, sep: char) -> (out: Vec<char>)
    ensures
        out@ == join_with(views(pieces@), sep),
{
    let mut out: Vec<char> = Vec::new();
    let mut i: usize = 0;
    while i < pieces.len()
        invariant
            i <= pieces.len(),
            out@ == join_with(views(pieces@).subrange(0, i as int), sep),
        decreases pieces.len() - i,
    {
        let ghost done = views(pieces@).subrange(0, i as int);
        let ghost next = views(pieces@).subrange(0, i + 1);
        proof {
            assert(next.drop_last() =~= done);
            assert(next.last() == pieces@[i as int]@);
        }
        if i > 0 {
            out.push(sep);
        }
        push_all(&mut out, &pieces[i]);
        i += 1;
    }
    assert(views(pieces@).subrange(0, pieces.len() as int) =~= views(pieces@));
    out
}

/// The characters with the Unicode property White_Space.
pub open spec fn is_whitespace(c: char) -> bool {
    let u = c as u32;
    ||| 0x09 <= u <= 0x0d
    ||| u == 0x20
    ||| u == 0x85
    ||| u == 0xa0
    ||| u == 0x1680
    ||| 0x2000 <= u <= 0x200a
    ||| u == 0x2028
    ||| u == 0x2029
    ||| u == 0x202f
    ||| u == 0x205f
    ||| u == 0x3000
}

/// A line that holds nothing but white space.
pub open spec fn is_blank(line: Seq<char>) -> bool {
    forall|i: int| 0 <= i < line.len() ==> is_whitespace(#[trigger] line[i])
}

/// A line without the carriage return that ends it, if one does.
pub open spec fn strip_cr(line: Seq<char>) -> Seq<char> {
    if line.len() > 0 && line.last() == '\r' {
        line.drop_last()
    } else {
        line
    }
}

/// The lines of a text. A line ends with a line feed, or with a carriage
/// return and a line feed; the ending is not part of the line. What follows
/// the last line feed is a line of its own unless it is empty.
pub open spec fn lines_of(s: Seq<char>) -> Seq<Seq<char>> {
    let pieces = split_on(s, '\n');
    let ended = pieces.drop_last().map_values(|p: Seq<char>| strip_cr(p));
    if pieces.last().len() == 0 {
        ended
    } else {
        ended.push(pieces.last())
    }
}

/// Whether a character has the Unicode property White_Space.
pub fn is_whitespace_char(c: char) -> (r: bool)
    ensures
        r == is_whitespace(c),
{
    let u: u32 = c as u32;
    (0x09 <= u && u <= 0x0d) || u == 0x20 || u == 0x85 || u == 0xa0 || u == 0x1680 || (0x2000 <= u
        && u <= 0x200a) || u == 0x2028 || u == 0x2029 || u == 0x202f || u == 0x205f || u == 0x3000
}

/// Whether a line holds nothing but white space.
pub fn is_blank_line(line: &Vec<char>) -> (r: bool)
    ensures
        r == is_blank(line@),
{
    let mut i: usize = 0;
    while i < line.len()
        invariant
            i <= line.len(),
            forall|k: int| 0 <= k < i ==> is_whitespace(#[trigger] line@[k]),
        decreases line.len() - i,
    {
        if !is_whitespace_char(line[i]) {
            return false;
        }
        i += 1;
    }
    true
}

/// The first `n` characters of `s`.
pub fn head_to(s: &Vec<char>, n: usize) -> (out: Vec<char>)
    requires
        n <= s.len(),
    ensures
        out@ == s@.take(n as int),
{
    let mut out: Vec<char> = Vec::new();
    let mut i: usize = 0;
    while i < n
        invariant
            i <= n <= s.len(),
            out@ == s@.take(i as int),
        decreases n - i,
    {
        out.push(s[i]);
        i += 1;
        assert(s@.take(i as int) =~= s@.take(i - 1).push(s@[i - 1]));
    }
    out
}

/// Cuts a text into its lines.
pub fn lines(s: &Vec<char>) -> (out: Vec<Vec<char>>)
    ensures
        views(out@) == lines_of(s@),
{
    let pieces = split(s, '\n');
    proof {
        lemma_split_nonempty(s@, '\n');
    }
    let ghost all = views(pieces@);
    let last: usize = pieces.len() - 1;
    let mut out: Vec<Vec<char>> = Vec::new();
    let mut i: usize = 0;
    while i < last
        invariant
            i <= last,
            last == pieces.len() - 1,
            all == views(pieces@),
            views(out@) == all.subrange(0, i as int).map_values(|p: Seq<char>| strip_cr(p)),
        decreases last - i,
    {
        let piece = &pieces[i];
        let ghost done = views(out@);
        let n: usize = piece.len();
        let line = if n > 0 && piece[n - 1] == '\r' {
            head_to(piece, n - 1)
        } else {
            head_to(piece, n)
        };
        assert(line@ =~= strip_cr(piece@));
        out.push(line);
        i += 1;
        assert(views(out@) =~= done.push(strip_cr(piece@)));
        assert(all.subrange(0, i as int).map_values(|p: Seq<char>| strip_cr(p)) =~= done.push(
            strip_cr(piece@),
        ));
    }
    assert(all.subrange(0, last as int) =~= all.drop_last());
    if pieces[last].len() > 0 {
        let ghost done = views(out@);
        out.push(head_to(&pieces[last], pieces[last].len()));
        assert(pieces@[last as int]@.take(pieces@[last as int]@.len() as int)
            =~= pieces@[last as int]@);
        assert(views(out@) =~= done.push(all.last()));
    }
    out
}

} // verus!
