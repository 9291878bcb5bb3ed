//! Voice transcript normalization.
//!
//! Speech-to-text writes a spoken "at" as the word, never the symbol, so a
//! transcript is rewritten into `@` syntax by this one pass and then parsed
//! exactly like typed input. Every standalone "at" is rewritten (so "meet Alex
//! at 9pm" is flagged too) and each rewrite is reported with the exact text
//! it replaced, so the interface can restore a false positive verbatim.
//!
//! The whitespace after "at" is swallowed, since "@ weekly" would be inert;
//! and when a single word separates two spoken "at"s, the gap before the
//! second `@` is closed, so "at shopping at grocery" becomes one chain
//! `@shopping@grocery`.
use vstd::prelude::*;
use vstd::string::StringSliceAdditionalSpecFns;
use vstd::utf8::encode_scalar;

use crate::text::{
    alnum, char_utf8_len, chars_of, is_alphanumeric, is_whitespace, is_ws, lemma_utf8_len_concat,
    lemma_utf8_len_push, lemma_utf8_len_single,
    lemma_utf8_len_split, no_ws, string_of, string_of_range, trim_end, trimmed_end,
    utf8_len,
};

verus! {

/// One spoken "at" that was rewritten to `@`.
#[derive(Debug, Clone, PartialEq, Eq)]
pub struct SpokenAt {
    /// Byte offset of the inserted `@` within [`NormalizedVoice::text`].
    pub offset: usize,
    /// Exactly what was replaced, whitespace included.
    pub original: String,
}

/// A transcript rewritten into `@` syntax, plus the rewrites made.
#[derive(Debug, Clone, PartialEq, Eq)]
pub struct NormalizedVoice {
    pub text: String,
    pub replacements: Vec<SpokenAt>,
}

/// The replacements as (byte offset, replaced text) pairs.
pub open spec fn spoken_views(v: Seq<SpokenAt>) -> Seq<(nat, Seq<char>)> {
    Seq::new(v.len(), |i: int| (v[i].offset as nat, v[i].original@))
}

impl View for NormalizedVoice {
    type V = (Seq<char>, Seq<(nat, Seq<char>)>);

    open spec fn view(&self) -> (Seq<char>, Seq<(nat, Seq<char>)>) {
        (self.text@, spoken_views(self.replacements@))
    }
}

/// `a` or `A`.
pub open spec fn is_letter_a(c: char) -> bool {
    c == 'a' || c == 'A'
}

/// `t` or `T`.
pub open spec fn is_letter_t(c: char) -> bool {
    c == 't' || c == 'T'
}

/// Whether the word "at", in any case, starts at `k` with no alphanumeric
/// character directly before or after it.
pub open spec fn standalone_at(v: Seq<char>, k: int) -> bool {
    &&& 0 <= k
    &&& k + 1 < v.len()
    &&& is_letter_a(v[k])
    &&& is_letter_t(v[k + 1])
    &&& (k == 0 || !alnum(v[k - 1]))
    &&& (k + 2 >= v.len() || !alnum(v[k + 2]))
}

/// The standalone "at" positions below `n`, ascending.
pub open spec fn at_positions(v: Seq<char>, n: nat) -> Seq<int>
    decreases n,
{
    if n == 0 {
        seq![]
    } else {
        let p = at_positions(v, (n - 1) as nat);
        if standalone_at(v, n - 1) {
            p.push(n - 1)
        } else {
            p
        }
    }
}

/// The end of the whitespace run starting at `j`.
pub open spec fn ws_run_end(v: Seq<char>, j: int) -> int
    decreases v.len() - j,
{
    if 0 <= j < v.len() && is_ws(v[j]) {
        ws_run_end(v, j + 1)
    } else {
        j
    }
}

/// Progress of the rewrite: the text so far, the rewrites so far, how much
/// of the transcript has been consumed, and whether a chain is open.
pub struct VoiceState {
    pub text: Seq<char>,
    pub replacements: Seq<(nat, Seq<char>)>,
    pub cursor: int,
    pub open: bool,
}

/// Rewrites the "at" at `start`.
pub open spec fn voice_step(v: Seq<char>, s: VoiceState, start: int) -> VoiceState {
    if start < s.cursor {
        s
    } else {
        let between = v.subrange(s.cursor, start);
        let trimmed = trim_end(between);
        let continues = s.open && trimmed.len() > 0 && no_ws(trimmed);
        let text = s.text + if continues {
            trimmed
        } else {
            between
        };
        let end = ws_run_end(v, start + 2);
        VoiceState {
            text: text.push('@'),
            replacements: s.replacements.push((utf8_len(text), v.subrange(start, end))),
            cursor: end,
            open: true,
        }
    }
}

/// The state after rewriting the first `n` of `positions`.
pub open spec fn voice_fold(v: Seq<char>, positions: Seq<int>, n: nat) -> VoiceState
    decreases n,
{
    if n == 0 {
        VoiceState { text: seq![], replacements: seq![], cursor: 0, open: false }
    } else {
        voice_step(v, voice_fold(v, positions, (n - 1) as nat), positions[n - 1])
    }
}

/// What [`normalize_spoken_at`] returns for a transcript.
pub open spec fn normalize_spec(v: Seq<char>) -> (Seq<char>, Seq<(nat, Seq<char>)>) {
    let p = at_positions(v, v.len());
    let s = voice_fold(v, p, p.len());
    (s.text + v.subrange(s.cursor, v.len() as int), s.replacements)
}

proof fn lemma_at_positions(v: Seq<char>, n: nat)
    requires
        n <= v.len(),
    ensures
        forall|i: int|
            0 <= i < at_positions(v, n).len() ==> standalone_at(v, #[trigger] at_positions(v, n)[i])
                && at_positions(v, n)[i] < n,
    decreases n,
{
    if n > 0 {
        lemma_at_positions(v, (n - 1) as nat);
        let p = at_positions(v, (n - 1) as nat);
        if standalone_at(v, n - 1) {
            assert forall|i: int| 0 <= i < p.len() + 1 implies standalone_at(
                v,
                #[trigger] p.push(n - 1)[i],
            ) && p.push(n - 1)[i] < n by {
                if i < p.len() {
                    assert(p.push(n - 1)[i] == p[i]);
                }
            }
        }
    }
}

/// Positions of every standalone "at".
fn standalone_at_positions(v: &Vec<char>) -> (r: Vec<usize>)
    ensures
        r@.len() == at_positions(v@, v@.len()).len(),
        forall|i: int| 0 <= i < r@.len() ==> r@[i] as int == at_positions(v@, v@.len())[i],
{
    let mut found: Vec<usize> = Vec::new();
    let mut k: usize = 0;
    while k < v.len()
        invariant
            0 <= k <= v@.len(),
            found@.len() == at_positions(v@, k as nat).len(),
            forall|i: int| 0 <= i < found@.len() ==> found@[i] as int == at_positions(v@, k as nat)[i],
        decreases v@.len() - k,
    {
        let hit = k + 1 < v.len() && (v[k] == 'a' || v[k] == 'A') && (v[k + 1] == 't' || v[k + 1]
            == 'T') && (k == 0 || !is_alphanumeric(v[k - 1])) && (k + 2 >= v.len()
            || !is_alphanumeric(v[k + 2]));
        if hit {
            found.push(k);
        }
        k += 1;
    }
    found
}

/// Appends `v[lo..hi]` to `text`, keeping `bytes` equal to its UTF-8 length.
fn append_range(text: &mut Vec<char>, bytes: &mut usize, v: &Vec<char>, lo: usize, hi: usize)
    requires
        lo <= hi <= v@.len(),
        *old(bytes) == utf8_len(old(text)@),
        utf8_len(old(text)@) + utf8_len(v@.subrange(lo as int, hi as int)) <= usize::MAX,
    ensures
        final(text)@ == old(text)@ + v@.subrange(lo as int, hi as int),
        *final(bytes) == utf8_len(final(text)@),
{
    let ghost start = text@;
    let mut i = lo;
    while i < hi
        invariant
            lo <= i <= hi <= v@.len(),
            text@ == start + v@.subrange(lo as int, i as int),
            *bytes == utf8_len(text@),
            utf8_len(start) + utf8_len(v@.subrange(lo as int, hi as int)) <= usize::MAX,
        decreases hi - i,
    {
        let c = v[i];
        proof {
            lemma_utf8_len_push(text@, c);
            lemma_utf8_len_split(v@, lo as int, i + 1, hi as int);
            lemma_utf8_len_split(v@, lo as int, i as int, i + 1);
            assert(v@.subrange(i as int, i + 1) =~= seq![c]);
            crate::text::lemma_utf8_len_single(c);
            assert(start + v@.subrange(lo as int, i + 1) =~= (start + v@.subrange(lo as int, i as int)).push(c));
            crate::text::lemma_utf8_len_concat(start, v@.subrange(lo as int, i as int));
        }
        let w = char_utf8_len(c);
        text.push(c);
        *bytes = *bytes + w;
        i += 1;
    }
}

/// Rewrites every standalone spoken "at" in `transcript` to `@`.
pub fn normalize_spoken_at(transcript: &str) -> (r: NormalizedVoice)
    ensures
        r@ == normalize_spec(transcript@),
{
    let byte_len = transcript.as_bytes().len();
    assert(utf8_len(transcript@) == byte_len);
    let v = chars_of(transcript);
    let positions = standalone_at_positions(&v);
    let ghost p = at_positions(v@, v@.len());
    proof {
        lemma_at_positions(v@, v@.len());
    }
    let mut text: Vec<char> = Vec::new();
    let mut bytes: usize = 0;
    let mut replacements: Vec<SpokenAt> = Vec::new();
    let mut cursor: usize = 0;
    let mut chain_open = false;
    let mut j: usize = 0;
    while j < positions.len()
        invariant
            0 <= j <= positions@.len() == p.len(),
            v@ == transcript@,
            p == at_positions(v@, v@.len()),
            forall|i: int| 0 <= i < positions@.len() ==> positions@[i] as int == p[i],
            forall|i: int| 0 <= i < p.len() ==> standalone_at(v@, #[trigger] p[i]),
            utf8_len(v@) <= usize::MAX,
            cursor <= v@.len(),
            bytes == utf8_len(text@),
            utf8_len(text@) <= utf8_len(v@.subrange(0, cursor as int)),
            ({
                let s = voice_fold(v@, p, j as nat);
                &&& s.text == text@
                &&& s.replacements == spoken_views(replacements@)
                &&& s.cursor == cursor as int
                &&& s.open == chain_open
            }),
        decreases positions@.len() - j,
    {
        let start = positions[j];
        assert(start as int == p[j as int]);
        assert(standalone_at(v@, p[j as int]));
        assert(start + 2 <= v@.len());
        if start >= cursor {
            let ghost s0 = voice_fold(v@, p, j as nat);
            let te = trimmed_end(&v, cursor, start);
            let mut continues = chain_open && te > cursor;
            let mut q = cursor;
            while q < te
                invariant
                    cursor <= q <= te <= v@.len(),
                    continues == (chain_open && te > cursor && forall|m: int|
                        cursor <= m < q ==> !is_ws(#[trigger] v@[m])),
                decreases te - q,
            {
                if is_whitespace(v[q]) {
                    continues = false;
                }
                q += 1;
            }
            assert(continues == (s0.open && trim_end(v@.subrange(cursor as int, start as int)).len()
                > 0 && no_ws(trim_end(v@.subrange(cursor as int, start as int))))) by {
                let tr = v@.subrange(cursor as int, te as int);
                if chain_open && te > cursor {
                    if continues {
                        assert forall|m: int| 0 <= m < tr.len() implies !is_ws(#[trigger] tr[m]) by {
                            assert(tr[m] == v@[cursor + m]);
                        }
                    } else {
                        let m = choose|m: int| cursor <= m < te && is_ws(#[trigger] v@[m]);
                        assert(tr[m - cursor] == v@[m]);
                    }
                }
            }
            proof {
                lemma_utf8_len_split(v@, 0, cursor as int, start as int);
                lemma_utf8_len_split(v@, cursor as int, te as int, start as int);
                lemma_utf8_len_split(v@, 0, start as int, v@.len() as int);
                assert(v@.subrange(0, v@.len() as int) =~= v@);
            }
            let piece_end = if continues { te } else { start };
            let ghost text_before = text@;
            append_range(&mut text, &mut bytes, &v, cursor, piece_end);
            proof {
                crate::text::lemma_utf8_len_concat(text_before, v@.subrange(cursor as int, piece_end as int));
                assert(utf8_len(text@) <= utf8_len(v@.subrange(0, start as int)));
            }
            let offset = bytes;
            proof {
                lemma_utf8_len_push(text@, '@');
                lemma_utf8_len_split(v@, 0, start as int, start + 2);
                lemma_utf8_len_split(v@, start as int, start + 1, start + 2);
                assert(v@.subrange(start as int, start + 1) =~= seq![v@[start as int]]);
                assert(v@.subrange(start + 1, start + 2) =~= seq![v@[start + 1]]);
                crate::text::lemma_utf8_len_single(v@[start as int]);
                crate::text::lemma_utf8_len_single(v@[start + 1]);
                lemma_utf8_len_split(v@, 0, start + 2, v@.len() as int);
                assert(encode_scalar(v@[start as int] as u32).len() == 1);
                assert(encode_scalar(v@[start + 1] as u32).len() == 1);
                assert(utf8_len(v@.subrange(0, start + 2)) == utf8_len(v@.subrange(0, start as int)) + 2);
            }
            text.push('@');
            bytes = bytes + 1;
            let mut end = start + 2;
            while end < v.len() && is_whitespace(v[end])
                invariant
                    start + 2 <= end <= v@.len(),
                    ws_run_end(v@, end as int) == ws_run_end(v@, start + 2),
                decreases v@.len() - end,
            {
                end += 1;
            }
            let original = string_of_range(&v, start, end);
            let ghost before = replacements@;
            replacements.push(SpokenAt { offset, original });
            assert(spoken_views(replacements@) =~= spoken_views(before).push((offset as nat, original@)));
            proof {
                lemma_utf8_len_split(v@, 0, start + 2, end as int);
            }
            cursor = end;
            chain_open = true;
        }
        j += 1;
    }
    proof {
        lemma_utf8_len_split(v@, 0, cursor as int, v@.len() as int);
        assert(v@.subrange(0, v@.len() as int) =~= v@);
    }
    append_range(&mut text, &mut bytes, &v, cursor, v.len());
    NormalizedVoice { text: string_of(&text), replacements }
}

/// Whether `t` has an `@` at the character whose UTF-8 byte offset is `off`.
pub open spec fn symbol_at(t: Seq<char>, off: nat) -> bool {
    exists|k: int| 0 <= k < t.len() && utf8_len(t.take(k)) == off && #[trigger] t[k] == '@'
}

proof fn lemma_symbol_at_extends(t: Seq<char>, u: Seq<char>, off: nat)
    requires
        symbol_at(t, off),
    ensures
        symbol_at(t + u, off),
{
    let k = choose|k: int| 0 <= k < t.len() && utf8_len(t.take(k)) == off && #[trigger] t[k] == '@';
    assert((t + u).take(k) =~= t.take(k));
    assert((t + u)[k] == '@');
}

proof fn lemma_fold_symbols(v: Seq<char>, p: Seq<int>, n: nat)
    requires
        n <= p.len(),
    ensures
        forall|i: int|
            0 <= i < voice_fold(v, p, n).replacements.len() ==> symbol_at(
                voice_fold(v, p, n).text,
                #[trigger] voice_fold(v, p, n).replacements[i].0,
            ),
    decreases n,
{
    if n > 0 {
        lemma_fold_symbols(v, p, (n - 1) as nat);
        let s = voice_fold(v, p, (n - 1) as nat);
        let start = p[n - 1];
        if start >= s.cursor {
            let between = v.subrange(s.cursor, start);
            let trimmed = trim_end(between);
            let continues = s.open && trimmed.len() > 0 && no_ws(trimmed);
            let text = s.text + if continues {
                trimmed
            } else {
                between
            };
            let t2 = text.push('@');
            let s2 = voice_fold(v, p, n);
            assert(s2.text == t2);
            assert forall|i: int| 0 <= i < s2.replacements.len() implies symbol_at(
                t2,
                #[trigger] s2.replacements[i].0,
            ) by {
                if i < s.replacements.len() {
                    assert(s2.replacements[i] == s.replacements[i]);
                    let extra = if continues {
                        trimmed
                    } else {
                        between
                    };
                    lemma_symbol_at_extends(s.text, extra.push('@'), s.replacements[i].0);
                    assert(s.text + extra.push('@') =~= t2);
                } else {
                    assert(t2.take(text.len() as int) =~= text);
                    assert(t2[text.len() as int] == '@');
                }
            }
        }
    }
}

/// Every rewrite's offset points at an `@` of the rewritten text, so the
/// interface can highlight each one.
pub proof fn lemma_offsets_point_at_symbols(v: Seq<char>)
    ensures
        forall|i: int|
            0 <= i < normalize_spec(v).1.len() ==> symbol_at(
                normalize_spec(v).0,
                #[trigger] normalize_spec(v).1[i].0,
            ),
{
    let p = at_positions(v, v.len());
    let s = voice_fold(v, p, p.len());
    lemma_fold_symbols(v, p, p.len());
    assert forall|i: int| 0 <= i < normalize_spec(v).1.len() implies symbol_at(
        normalize_spec(v).0,
        #[trigger] normalize_spec(v).1[i].0,
    ) by {
        lemma_symbol_at_extends(s.text, v.subrange(s.cursor, v.len() as int), s.replacements[i].0);
    }
}

proof fn lemma_ws_run_end(v: Seq<char>, j: int)
    requires
        0 <= j <= v.len(),
    ensures
        j <= ws_run_end(v, j) <= v.len(),
    decreases v.len() - j,
{
    if j < v.len() && is_ws(v[j]) {
        lemma_ws_run_end(v, j + 1);
    }
}

proof fn lemma_fold_single(v: Seq<char>, p: Seq<int>, n: nat)
    requires
        1 <= n <= p.len(),
        0 <= p[0],
    ensures
        voice_fold(v, p, n).replacements.len() >= 1,
        voice_fold(v, p, n).replacements.len() == 1 ==> voice_fold(v, p, n) == voice_fold(v, p, 1),
    decreases n,
{
    let prev = voice_fold(v, p, (n - 1) as nat);
    assert(voice_fold(v, p, n) == voice_step(v, prev, p[n - 1]));
    if n > 1 {
        lemma_fold_single(v, p, (n - 1) as nat);
    } else {
        assert(prev.cursor == 0);
    }
}

/// A transcript with a single rewrite is restored verbatim by putting the
/// replaced text back in place of its `@`.
pub proof fn lemma_single_rewrite_restores(v: Seq<char>)
    requires
        normalize_spec(v).1.len() == 1,
    ensures
        ({
            let (t, reps) = normalize_spec(v);
            exists|k: int|
                0 <= k < t.len() && utf8_len(t.take(k)) == reps[0].0 && t[k] == '@' && #[trigger] t.take(k)
                    + reps[0].1 + t.skip(k + 1) == v
        }),
{
    let p = at_positions(v, v.len());
    lemma_at_positions(v, v.len());
    let s = voice_fold(v, p, p.len());
    if p.len() == 0 {
        assert(s.replacements.len() == 0);
    }
    lemma_fold_single(v, p, p.len());
    let s0 = voice_fold(v, p, 0);
    let start = p[0];
    assert(standalone_at(v, start));
    let between = v.subrange(0, start);
    let end = ws_run_end(v, start + 2);
    lemma_ws_run_end(v, start + 2);
    assert(s == voice_fold(v, p, 1));
    assert(s.text == between.push('@'));
    assert(s.cursor == end);
    assert(s.replacements[0] == (utf8_len(between), v.subrange(start, end)));
    let t = s.text + v.subrange(end, v.len() as int);
    let k = start;
    assert(t.take(k) =~= between);
    assert(t[k] == '@');
    assert(t.skip(k + 1) =~= v.subrange(end, v.len() as int));
    assert(t.take(k) + v.subrange(start, end) + t.skip(k + 1) =~= v);
    assert(normalize_spec(v).0 == t);
    assert(normalize_spec(v).1[0] == (utf8_len(between), v.subrange(start, end)));
    assert(0 <= k < t.len() && utf8_len(t.take(k)) == normalize_spec(v).1[0].0 && t[k] == '@'
        && t.take(k) + normalize_spec(v).1[0].1 + t.skip(k + 1) == v);
}

/// Whether `s` is what one rewrite replaces: "at" in any case, then only
/// whitespace.
pub open spec fn spoken_at_text(s: Seq<char>) -> bool {
    &&& s.len() >= 2
    &&& is_letter_a(s[0])
    &&& is_letter_t(s[1])
    &&& forall|k: int| 2 <= k < s.len() ==> is_ws(#[trigger] s[k])
}

proof fn lemma_ws_run_all_ws(v: Seq<char>, j: int)
    requires
        0 <= j <= v.len(),
    ensures
        forall|k: int| j <= k < ws_run_end(v, j) ==> is_ws(#[trigger] v[k]),
    decreases v.len() - j,
{
    lemma_ws_run_end(v, j);
    if j < v.len() && is_ws(v[j]) {
        lemma_ws_run_all_ws(v, j + 1);
    }
}

proof fn lemma_trim_end_prefix(s: Seq<char>)
    ensures
        trim_end(s).len() <= s.len(),
        trim_end(s) == s.take(trim_end(s).len() as int),
    decreases s.len(),
{
    if s.len() > 0 && is_ws(s.last()) {
        lemma_trim_end_prefix(s.drop_last());
        assert(s.drop_last().take(trim_end(s).len() as int) =~= s.take(trim_end(s).len() as int));
    } else {
        assert(s.take(s.len() as int) =~= s);
    }
}

proof fn lemma_utf8_len_take(s: Seq<char>, n: int)
    requires
        0 <= n <= s.len(),
    ensures
        utf8_len(s.take(n)) <= utf8_len(s),
{
    lemma_utf8_len_split(s, 0, n, s.len() as int);
    assert(s.subrange(0, n) =~= s.take(n));
    assert(s.subrange(0, s.len() as int) =~= s);
}

proof fn lemma_fold_invariants(v: Seq<char>, p: Seq<int>, n: nat)
    requires
        n <= p.len(),
        forall|i: int| 0 <= i < p.len() ==> standalone_at(v, #[trigger] p[i]),
    ensures
        ({
            let s = voice_fold(v, p, n);
            &&& 0 <= s.cursor <= v.len()
            &&& utf8_len(s.text) + s.replacements.len() <= utf8_len(v.take(s.cursor))
            &&& forall|i: int| 0 <= i < s.replacements.len() ==> spoken_at_text(#[trigger] s.replacements[i].1)
            &&& forall|i: int| 0 <= i < s.replacements.len() ==> #[trigger] s.replacements[i].0 < utf8_len(s.text)
            &&& forall|i: int, j: int|
                0 <= i < j < s.replacements.len() ==> #[trigger] s.replacements[i].0 < #[trigger] s.replacements[j].0
        }),
    decreases n,
{
    if n == 0 {
        assert(v.take(0) =~= Seq::<char>::empty());
    } else {
        lemma_fold_invariants(v, p, (n - 1) as nat);
        let s = voice_fold(v, p, (n - 1) as nat);
        let start = p[n - 1];
        assert(standalone_at(v, start));
        if start >= s.cursor {
            let between = v.subrange(s.cursor, start);
            let trimmed = trim_end(between);
            let continues = s.open && trimmed.len() > 0 && no_ws(trimmed);
            let extra = if continues {
                trimmed
            } else {
                between
            };
            let text = s.text + extra;
            let end = ws_run_end(v, start + 2);
            lemma_ws_run_end(v, start + 2);
            lemma_ws_run_all_ws(v, start + 2);
            let s2 = voice_fold(v, p, n);
            assert(s2.text == text.push('@'));
            assert(s2.cursor == end);
            assert(s2.replacements == s.replacements.push((utf8_len(text), v.subrange(start, end))));
            // Byte lengths.
            lemma_trim_end_prefix(between);
            lemma_utf8_len_take(between, trimmed.len() as int);
            assert(utf8_len(extra) <= utf8_len(between));
            lemma_utf8_len_concat(s.text, extra);
            lemma_utf8_len_push(text, '@');
            assert(encode_scalar('@' as u32).len() == 1);
            lemma_utf8_len_split(v, 0, s.cursor, start);
            lemma_utf8_len_split(v, 0, start, end);
            lemma_utf8_len_split(v, start, start + 2, end);
            let pair = v.subrange(start, start + 2);
            assert(pair =~= seq![v[start]].push(v[start + 1]));
            lemma_utf8_len_push(seq![v[start]], v[start + 1]);
            lemma_utf8_len_single(v[start]);
            assert(encode_scalar(v[start] as u32).len() == 1);
            assert(encode_scalar(v[start + 1] as u32).len() == 1);
            assert(v.subrange(0, s.cursor) =~= v.take(s.cursor));
            assert(v.subrange(0, start) =~= v.take(start));
            assert(v.subrange(0, end) =~= v.take(end));
            // The replaced text.
            let rep = v.subrange(start, end);
            assert forall|k: int| 2 <= k < rep.len() implies is_ws(#[trigger] rep[k]) by {
                assert(rep[k] == v[start + k]);
            }
            assert(spoken_at_text(rep));
            assert forall|i: int| 0 <= i < s2.replacements.len() implies spoken_at_text(
                #[trigger] s2.replacements[i].1,
            ) by {
                if i < s.replacements.len() {
                    assert(s2.replacements[i] == s.replacements[i]);
                }
            }
            assert forall|i: int| 0 <= i < s2.replacements.len() implies #[trigger] s2.replacements[i].0
                < utf8_len(s2.text) by {
                if i < s.replacements.len() {
                    assert(s2.replacements[i] == s.replacements[i]);
                }
            }
            assert forall|i: int, j: int| 0 <= i < j < s2.replacements.len() implies #[trigger] s2.replacements[i].0
                < #[trigger] s2.replacements[j].0 by {
                assert(s2.replacements[i] == s.replacements[i]);
                if j < s.replacements.len() {
                    assert(s2.replacements[j] == s.replacements[j]);
                }
            }
        }
    }
}

/// The rewrites a transcript gets: each replaced "at" in any case followed
/// only by whitespace; their offsets strictly increase; the rewritten text
/// is shorter than the transcript by at least one byte per rewrite; and the
/// text is the transcript itself exactly when nothing was rewritten.
pub proof fn lemma_rewrite_invariants(v: Seq<char>)
    ensures
        ({
            let (t, reps) = normalize_spec(v);
            &&& forall|i: int| 0 <= i < reps.len() ==> spoken_at_text(#[trigger] reps[i].1)
            &&& forall|i: int, j: int| 0 <= i < j < reps.len() ==> #[trigger] reps[i].0 < #[trigger] reps[j].0
            &&& utf8_len(t) + reps.len() <= utf8_len(v)
            &&& (reps.len() == 0 <==> t == v)
        }),
{
    let p = at_positions(v, v.len());
    lemma_at_positions(v, v.len());
    lemma_fold_invariants(v, p, p.len());
    let s = voice_fold(v, p, p.len());
    let t = s.text + v.subrange(s.cursor, v.len() as int);
    lemma_utf8_len_concat(s.text, v.subrange(s.cursor, v.len() as int));
    lemma_utf8_len_split(v, 0, s.cursor, v.len() as int);
    assert(v.subrange(0, s.cursor) =~= v.take(s.cursor));
    assert(v.subrange(0, v.len() as int) =~= v);
    if p.len() == 0 {
        assert(s.cursor == 0 && s.text == Seq::<char>::empty());
        assert(t =~= v);
    } else {
        lemma_fold_single(v, p, p.len());
    }
}

} // verus!
