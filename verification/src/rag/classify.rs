//! Statement-versus-question classification.
//!
//! One input bar handles both capture and ask, so the library decides which
//! the user meant by inspecting the text alone: a trailing `?`, an
//! interrogative opening word, or an auxiliary verb in first position marks a
//! question; everything else is a statement to be routed and filed.
//!
//! The opening word is lowercased, cut at its first apostrophe (ASCII `'` or
//! the typographic `’`) and stripped of non-alphanumeric characters at both
//! ends before it is compared with the word lists. A negative contraction
//! such as "didn't" cuts to `didn`, so a word that ends in `n` is also tried
//! without it.
use vstd::prelude::*;
use vstd::string::StrSliceExecFns;

use crate::text::{
    chars_of, is_whitespace, is_ws, lowercase, string_of_range, strip_edges, stripped_range,
    to_lowercase, trim, trimmed_end, trimmed_start,
};

verus! {

/// What the user meant by an input.
#[derive(Debug, Clone, Copy, PartialEq, Eq, Structural)]
pub enum InputKind {
    /// Capture it: the input runs through the router.
    Statement,
    /// Answer it: the input skips the router for retrieval and synthesis.
    Question,
}

/// The interrogative words that open a question.
pub open spec fn interrogative(w: Seq<char>) -> bool {
    ||| w == "who"@
    ||| w == "whom"@
    ||| w == "whose"@
    ||| w == "what"@
    ||| w == "when"@
    ||| w == "where"@
    ||| w == "why"@
    ||| w == "how"@
    ||| w == "which"@
}

/// The auxiliary verbs whose fronting makes a yes/no question.
pub open spec fn auxiliary(w: Seq<char>) -> bool {
    ||| w == "am"@
    ||| w == "is"@
    ||| w == "are"@
    ||| w == "was"@
    ||| w == "were"@
    ||| w == "be"@
    ||| w == "been"@
    ||| w == "do"@
    ||| w == "does"@
    ||| w == "did"@
    ||| w == "have"@
    ||| w == "has"@
    ||| w == "had"@
    ||| w == "can"@
    ||| w == "could"@
    ||| w == "shall"@
    ||| w == "should"@
    ||| w == "will"@
    ||| w == "would"@
    ||| w == "may"@
    ||| w == "might"@
    ||| w == "must"@
}

/// Whether `w` is on either word list.
pub open spec fn listed(w: Seq<char>) -> bool {
    interrogative(w) || auxiliary(w)
}

/// Whether `w` opens a question: it is listed, or it is a listed word
/// followed by the `n` of a negative contraction cut at its apostrophe.
pub open spec fn opens_question(w: Seq<char>) -> bool {
    listed(w) || (w.len() > 0 && w.last() == 'n' && listed(w.drop_last()))
}

/// The apostrophes at which a contraction is cut.
pub open spec fn is_apostrophe(c: char) -> bool {
    c == '\'' || c == '\u{2019}'
}

/// The first index at or after `i` holding an apostrophe, or the length of
/// `s` when there is none.
pub open spec fn apostrophe_from(s: Seq<char>, i: nat) -> nat
    decreases s.len() - i,
{
    if i >= s.len() {
        s.len()
    } else if is_apostrophe(s[i as int]) {
        i
    } else {
        apostrophe_from(s, i + 1)
    }
}

/// The first index at or after `i` holding whitespace, or the length of `s`
/// when there is none.
pub open spec fn whitespace_from(s: Seq<char>, i: nat) -> nat
    decreases s.len() - i,
{
    if i >= s.len() {
        s.len()
    } else if is_ws(s[i as int]) {
        i
    } else {
        whitespace_from(s, i + 1)
    }
}

/// The run of non-whitespace characters that opens `s`.
pub open spec fn leading_token(s: Seq<char>) -> Seq<char> {
    s.take(whitespace_from(s, 0) as int)
}

/// `s` up to its first apostrophe.
pub open spec fn before_apostrophe(s: Seq<char>) -> Seq<char> {
    s.take(apostrophe_from(s, 0) as int)
}

/// The part of an already lowercased opening word that carries the signal:
/// its head before any apostrophe, without edge punctuation.
pub open spec fn signal_word(lowered: Seq<char>) -> Seq<char> {
    strip_edges(before_apostrophe(lowered))
}

/// The signal word of `text` (already trimmed): `None` when `text` is empty
/// or nothing alphanumeric survives the reductions.
pub open spec fn first_word(text: Seq<char>) -> Option<Seq<char>> {
    if text.len() == 0 {
        None
    } else {
        let w = signal_word(lowercase(leading_token(text)));
        if w.len() == 0 {
            None
        } else {
            Some(w)
        }
    }
}

/// What [`classify`] decides for `input`.
pub open spec fn classify_spec(input: Seq<char>) -> InputKind {
    let t = trim(input);
    match first_word(t) {
        None => InputKind::Statement,
        Some(w) => if t.last() == '?' || opens_question(w) {
            InputKind::Question
        } else {
            InputKind::Statement
        },
    }
}

/// Whether `w` holds exactly the characters of `lit`.
fn eq_lit(w: &Vec<char>, lit: &str) -> (b: bool)
    ensures
        b == (w@ == lit@),
{
    let n = lit.unicode_len();
    if w.len() != n {
        return false;
    }
    let mut i: usize = 0;
    while i < n
        invariant
            n == lit@.len() == w@.len(),
            i <= n,
            forall|k: int| 0 <= k < i ==> w@[k] == lit@[k],
        decreases n - i,
    {
        if w[i] != lit.get_char(i) {
            return false;
        }
        i += 1;
    }
    assert(w@ =~= lit@);
    true
}

/// Whether `w` is on either word list.
fn is_listed(w: &Vec<char>) -> (b: bool)
    ensures
        b == listed(w@),
{
    eq_lit(w, "who") || eq_lit(w, "whom") || eq_lit(w, "whose") || eq_lit(w, "what") || eq_lit(
        w,
        "when",
    ) || eq_lit(w, "where") || eq_lit(w, "why") || eq_lit(w, "how") || eq_lit(w, "which")
        || eq_lit(w, "am") || eq_lit(w, "is") || eq_lit(w, "are") || eq_lit(w, "was") || eq_lit(
        w,
        "were",
    ) || eq_lit(w, "be") || eq_lit(w, "been") || eq_lit(w, "do") || eq_lit(w, "does")
        || eq_lit(w, "did") || eq_lit(w, "have") || eq_lit(w, "has") || eq_lit(w, "had")
        || eq_lit(w, "can") || eq_lit(w, "could") || eq_lit(w, "shall") || eq_lit(w, "should")
        || eq_lit(w, "will") || eq_lit(w, "would") || eq_lit(w, "may") || eq_lit(w, "might")
        || eq_lit(w, "must")
}

/// Whether `word` is an interrogative or a fronted auxiliary, directly or
/// once the `n` of a cut negative contraction is taken off.
pub fn opens_a_question(word: &str) -> (b: bool)
    ensures
        b == opens_question(word@),
{
    let mut w = chars_of(word);
    if is_listed(&w) {
        return true;
    }
    let n = w.len();
    if n > 0 && w[n - 1] == 'n' {
        w.pop();
        assert(w@ =~= word@.drop_last());
        is_listed(&w)
    } else {
        false
    }
}

/// The signal word of an opening word that has already been lowercased:
/// cut at the first apostrophe, stripped of edge punctuation. `None` when
/// nothing alphanumeric survives.
pub fn signal_word_of(lowered: &str) -> (r: Option<String>)
    ensures
        match r {
            None => signal_word(lowered@).len() == 0,
            Some(w) => w@ == signal_word(lowered@) && w@.len() > 0,
        },
{
    let v = chars_of(lowered);
    let n = v.len();
    let mut cut: usize = 0;
    while cut < n && !(v[cut] == '\'' || v[cut] == '\u{2019}')
        invariant
            v@ == lowered@,
            n == v@.len(),
            cut <= n,
            apostrophe_from(v@, cut as nat) == apostrophe_from(v@, 0),
        decreases n - cut,
    {
        cut += 1;
    }
    assert(v@.subrange(0, cut as int) == before_apostrophe(lowered@));
    let (lo, hi) = stripped_range(&v, 0, cut);
    if lo == hi {
        None
    } else {
        Some(string_of_range(&v, lo, hi))
    }
}

/// Decides whether `input` is something to file or something to answer.
///
/// Input with no alphanumeric opening word is a statement, even a bare `?`.
/// Otherwise a trailing `?` after trimming, or an opening word that
/// [`opens_a_question`], makes it a question.
pub fn classify(input: &str) -> (k: InputKind)
    ensures
        k == classify_spec(input@),
{
    let v = chars_of(input);
    let n = v.len();
    let e = trimmed_end(&v, 0, n);
    let s = trimmed_start(&v, 0, e);
    assert(v@.subrange(0, n as int) =~= input@);
    let ghost t = v@.subrange(s as int, e as int);
    assert(t == trim(input@));
    if s == e {
        return InputKind::Statement;
    }
    let mut k = s;
    while k < e && !is_whitespace(v[k])
        invariant
            s <= k <= e <= n == v@.len(),
            t == v@.subrange(s as int, e as int),
            whitespace_from(t, (k - s) as nat) == whitespace_from(t, 0),
        decreases e - k,
    {
        k += 1;
    }
    assert(v@.subrange(s as int, k as int) =~= leading_token(t));
    let raw = string_of_range(&v, s, k);
    let lowered = to_lowercase(raw.as_str());
    match signal_word_of(lowered.as_str()) {
        None => InputKind::Statement,
        Some(word) => {
            if v[e - 1] == '?' || opens_a_question(word.as_str()) {
                InputKind::Question
            } else {
                InputKind::Statement
            }
        },
    }
}

/// An input whose opening word (its first whitespace-free run after
/// trimming, lowercased, cut at an apostrophe and stripped of edge
/// punctuation) is an interrogative or a fronted auxiliary, or such an
/// auxiliary with the `n` of a cut negative contraction ("didn't" reads
/// `didn`), is a question, whatever follows; so is any input with an
/// opening word that ends in `?`; input with no such opening word at all,
/// even a bare `?`, is a statement, and so is one whose opening word opens
/// no question and that does not end in `?`.
pub proof fn lemma_classify_questions(input: Seq<char>)
    ensures
        ({
            let w = first_word(trim(input));
            &&& (w is Some && (w->0 == "who"@ || w->0 == "whom"@ || w->0 == "whose"@ || w->0 == "what"@
                || w->0 == "when"@ || w->0 == "where"@ || w->0 == "why"@ || w->0 == "how"@
                || w->0 == "which"@)) ==> classify_spec(input) == InputKind::Question
            &&& (w is Some && (w->0 == "am"@ || w->0 == "is"@ || w->0 == "are"@ || w->0 == "was"@
                || w->0 == "were"@ || w->0 == "be"@ || w->0 == "been"@ || w->0 == "do"@ || w->0 == "does"@
                || w->0 == "did"@ || w->0 == "have"@ || w->0 == "has"@ || w->0 == "had"@ || w->0 == "can"@
                || w->0 == "could"@ || w->0 == "shall"@ || w->0 == "should"@ || w->0 == "will"@
                || w->0 == "would"@ || w->0 == "may"@ || w->0 == "might"@ || w->0 == "must"@))
                ==> classify_spec(input) == InputKind::Question
            &&& (w is Some && w->0.len() > 0 && w->0.last() == 'n' && (w->0.drop_last() == "do"@
                || w->0.drop_last() == "does"@ || w->0.drop_last() == "did"@ || w->0.drop_last() == "is"@
                || w->0.drop_last() == "are"@ || w->0.drop_last() == "was"@ || w->0.drop_last() == "were"@
                || w->0.drop_last() == "has"@ || w->0.drop_last() == "have"@ || w->0.drop_last() == "had"@
                || w->0.drop_last() == "could"@ || w->0.drop_last() == "should"@
                || w->0.drop_last() == "would"@ || w->0.drop_last() == "must"@))
                ==> classify_spec(input) == InputKind::Question
            &&& w is Some && trim(input).last() == '?' ==> classify_spec(input) == InputKind::Question
            &&& w is Some && trim(input).last() != '?' && !opens_question(w->0) ==> classify_spec(input)
                == InputKind::Statement
            &&& w is None ==> classify_spec(input) == InputKind::Statement
        }),
{
}

} // verus!
