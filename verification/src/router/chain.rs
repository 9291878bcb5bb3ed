//! `@`-chain parsing.
//!
//! A chain is always a suffix of the input (`buy tomatoes @weekly`). The `@`
//! that opens it sits at the start of the input or after whitespace, so an
//! address such as `bob@example.com` is ordinary text; later `@`s inside an
//! open chain split it into segments (`@shopping@grocery`). An `@` followed by
//! a space, a bare or doubled `@`, or content typed after the chain all leave
//! the input as plain text.
use vstd::prelude::*;

use crate::text::{char_views, chars_of, string_views, is_whitespace, is_ws, no_ws, string_of_range, trim_end, trimmed_end};

verus! {

/// The result of parsing raw capture text for `@` syntax.
#[derive(Debug, Clone, PartialEq, Eq)]
pub enum ParsedCapture {
    /// No trailing chain: the whole (right-trimmed) input is the text.
    PlainText(String),
    /// A trailing chain: the text before it and its raw segments, outermost
    /// first.
    Chain { body: String, segments: Vec<String> },
}

/// The mathematical value of a [`ParsedCapture`].
pub enum ParsedCaptureView {
    PlainText(Seq<char>),
    Chain { body: Seq<char>, segments: Seq<Seq<char>> },
}

impl View for ParsedCapture {
    type V = ParsedCaptureView;

    open spec fn view(&self) -> ParsedCaptureView {
        match self {
            ParsedCapture::PlainText(t) => ParsedCaptureView::PlainText(t@),
            ParsedCapture::Chain { body, segments } => ParsedCaptureView::Chain {
                body: body@,
                segments: string_views(segments@),
            },
        }
    }
}

/// The pieces of `s` between occurrences of `sep`, as `str::split` yields
/// them: empty pieces included, and always at least one piece.
pub open spec fn split_on(s: Seq<char>, sep: char) -> Seq<Seq<char>>
    decreases s.len(),
{
    if s.len() == 0 {
        seq![Seq::empty()]
    } else {
        let p = split_on(s.drop_last(), sep);
        if s.last() == sep {
            p.push(Seq::empty())
        } else {
            p.update(p.len() - 1, p.last().push(s.last()))
        }
    }
}

/// Every segment names something: none is empty and none holds whitespace.
pub open spec fn segments_ok(segments: Seq<Seq<char>>) -> bool {
    forall|k: int| 0 <= k < segments.len() ==> {
        &&& (#[trigger] segments[k]).len() > 0
        &&& no_ws(segments[k])
    }
}

/// Whether the `@` at `i` opens a well-formed trailing chain in `t`.
pub open spec fn opens_chain(t: Seq<char>, i: int) -> bool {
    &&& 0 <= i < t.len()
    &&& t[i] == '@'
    &&& (i == 0 || is_ws(t[i - 1]))
    &&& segments_ok(split_on(t.subrange(i + 1, t.len() as int), '@'))
}

/// The first position at or after `i` whose `@` opens a chain.
pub open spec fn first_opener_from(t: Seq<char>, i: nat) -> Option<nat>
    decreases t.len() - i,
{
    if i >= t.len() {
        None
    } else if opens_chain(t, i as int) {
        Some(i)
    } else {
        first_opener_from(t, i + 1)
    }
}

/// What [`parse`] returns for `input`.
pub open spec fn parse_spec(input: Seq<char>) -> ParsedCaptureView {
    let t = trim_end(input);
    match first_opener_from(t, 0) {
        Some(i) => ParsedCaptureView::Chain {
            body: trim_end(t.subrange(0, i as int)),
            segments: split_on(t.subrange(i as int + 1, t.len() as int), '@'),
        },
        None => ParsedCaptureView::PlainText(t),
    }
}

proof fn lemma_split_len(s: Seq<char>, sep: char)
    ensures
        split_on(s, sep).len() >= 1,
    decreases s.len(),
{
    if s.len() > 0 {
        lemma_split_len(s.drop_last(), sep);
    }
}

/// Splits `v[lo..hi]` on `sep`, also reporting whether every piece is
/// non-empty and free of whitespace.
fn split_range(v: &Vec<char>, lo: usize, hi: usize, sep: char) -> (r: (Vec<Vec<char>>, bool))
    requires
        lo <= hi <= v@.len(),
    ensures
        char_views(r.0@) == split_on(v@.subrange(lo as int, hi as int), sep),
        r.1 == segments_ok(split_on(v@.subrange(lo as int, hi as int), sep)),
{
    let mut done: Vec<Vec<char>> = Vec::new();
    let mut current: Vec<char> = Vec::new();
    let mut i = lo;
    while i < hi
        invariant
            lo <= i <= hi <= v@.len(),
            char_views(done@).push(current@) == split_on(v@.subrange(lo as int, i as int), sep),
        decreases hi - i,
    {
        let ghost before = v@.subrange(lo as int, i as int);
        let ghost after = v@.subrange(lo as int, i + 1);
        assert(after.drop_last() =~= before);
        proof {
            lemma_split_len(before, sep);
        }
        let c = v[i];
        if c == sep {
            let piece = current;
            done.push(piece);
            current = Vec::new();
            assert(char_views(done@).push(current@) =~= split_on(after, sep));
        } else {
            current.push(c);
            assert(char_views(done@).push(current@) =~= split_on(after, sep));
        }
        i += 1;
    }
    let ghost pieces = char_views(done@).push(current@);
    done.push(current);
    assert(char_views(done@) =~= pieces);
    let mut ok = true;
    let mut k: usize = 0;
    while k < done.len()
        invariant
            0 <= k <= done@.len(),
            char_views(done@) == pieces,
            ok == (forall|m: int| 0 <= m < k ==> {
                &&& (#[trigger] pieces[m]).len() > 0
                &&& no_ws(pieces[m])
            }),
        decreases done@.len() - k,
    {
        assert(pieces[k as int] == done@[k as int]@);
        let piece = &done[k];
        let mut clean = piece.len() > 0;
        let mut m: usize = 0;
        while m < piece.len()
            invariant
                0 <= m <= piece@.len(),
                clean == (piece@.len() > 0 && forall|q: int| 0 <= q < m ==> !is_ws(
                    #[trigger] piece@[q],
                )),
            decreases piece@.len() - m,
        {
            if is_whitespace(piece[m]) {
                clean = false;
            }
            m += 1;
        }
        ok = ok && clean;
        k += 1;
    }
    (done, ok)
}

/// Splits raw capture text into its body and trailing `@` chain, if any.
pub fn parse(input: &str) -> (r: ParsedCapture)
    ensures
        r@ == parse_spec(input@),
{
    let v = chars_of(input);
    let end = trimmed_end(&v, 0, v.len());
    assert(v@.subrange(0, v@.len() as int) =~= input@);
    let ghost t = v@.subrange(0, end as int);
    let mut i: usize = 0;
    while i < end
        invariant
            0 <= i <= end <= v@.len(),
            t == v@.subrange(0, end as int),
            t == trim_end(input@),
            first_opener_from(t, 0) == first_opener_from(t, i as nat),
        decreases end - i,
    {
        assert(t[i as int] == v@[i as int]);
        assert(i > 0 ==> t[i - 1] == v@[i - 1]);
        if v[i] == '@' && (i == 0 || is_whitespace(v[i - 1])) {
            let (pieces, ok) = split_range(&v, i + 1, end, '@');
            assert(t.subrange(i + 1, t.len() as int) =~= v@.subrange(i + 1, end as int));
            if ok {
                let body_end = trimmed_end(&v, 0, i);
                assert(t.subrange(0, i as int) =~= v@.subrange(0, i as int));
                let body = string_of_range(&v, 0, body_end);
                let mut segments: Vec<String> = Vec::new();
                let mut k: usize = 0;
                while k < pieces.len()
                    invariant
                        0 <= k <= pieces@.len(),
                        string_views(segments@) =~= char_views(pieces@).take(k as int),
                    decreases pieces@.len() - k,
                {
                    let seg = string_of_range(&pieces[k], 0, pieces[k].len());
                    assert(pieces[k as int]@.subrange(0, pieces[k as int]@.len() as int)
                        =~= pieces[k as int]@);
                    assert(seg@ == char_views(pieces@)[k as int]);
                    let ghost before = string_views(segments@);
                    segments.push(seg);
                    assert(string_views(segments@) =~= before.push(seg@));
                    assert(string_views(segments@) =~= char_views(pieces@).take(k + 1));
                    k += 1;
                }
                assert(char_views(pieces@).take(pieces@.len() as int) =~= char_views(pieces@));
                assert(opens_chain(t, i as int));
                assert(first_opener_from(t, i as nat) == Some(i as nat));
                assert(string_views(segments@) == split_on(t.subrange(i + 1, t.len() as int), '@'));
                assert(body@ == trim_end(t.subrange(0, i as int)));
                return ParsedCapture::Chain { body, segments };
            }
        }
        i += 1;
    }
    ParsedCapture::PlainText(string_of_range(&v, 0, end))
}

} // verus!
