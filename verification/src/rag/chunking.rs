//! Chunking long text for embedding.
//!
//! Text is cut into overlapping runs of whitespace-delimited words: at most
//! [`CHUNK_WORDS`] words per chunk, each chunk repeating the last
//! [`OVERLAP_WORDS`] words of the one before. Every chunk carries the
//! character range it covers, counted in Unicode scalar values, and its text
//! is exactly that range of the original, spacing and punctuation intact.
use vstd::prelude::*;

use crate::text::{chars_of, is_whitespace, is_ws, string_of_range, trim, trim_end, trim_start};

verus! {

/// The embedding model's hard input limit in tokens.
pub const CHUNK_TOKEN_LIMIT: usize = 256;

/// Words per chunk: the token limit discounted by a conservative
/// tokens-per-word ratio, with room for the model's own special tokens.
pub const CHUNK_WORDS: usize = 180;

/// Words each chunk repeats from its predecessor.
pub const OVERLAP_WORDS: usize = 30;

/// Words between the starts of consecutive chunks.
pub const STRIDE_WORDS: usize = 150;

/// One embeddable span of an item's text.
#[derive(Debug, Clone, PartialEq, Eq)]
pub struct Chunk {
    /// Position in the sequence, from zero.
    pub index: usize,
    /// The span verbatim.
    pub text: String,
    /// First character of the span (inclusive), in Unicode scalar values.
    pub start_offset: usize,
    /// End of the span (exclusive), in Unicode scalar values.
    pub end_offset: usize,
}

/// Closed word spans of `v[..k]`, and the start of a word still open at `k`.
pub open spec fn scan_words(v: Seq<char>, k: nat) -> (Seq<(int, int)>, Option<int>)
    decreases k,
{
    if k == 0 {
        (seq![], None)
    } else {
        let (spans, open) = scan_words(v, (k - 1) as nat);
        let i = k - 1;
        if is_ws(v[i]) {
            match open {
                Some(s) => (spans.push((s, i)), None),
                None => (spans, None),
            }
        } else {
            match open {
                Some(s) => (spans, Some(s)),
                None => (spans, Some(i)),
            }
        }
    }
}

/// The maximal whitespace-free runs of `v`, as `[start, end)` character
/// ranges in order.
pub open spec fn word_spans(v: Seq<char>) -> Seq<(int, int)> {
    let (spans, open) = scan_words(v, v.len());
    match open {
        Some(s) => spans.push((s, v.len() as int)),
        None => spans,
    }
}

/// How many chunks a text of `n` words yields.
pub open spec fn chunk_count(n: nat) -> nat
    decreases n,
{
    if n == 0 {
        0
    } else if n <= CHUNK_WORDS {
        1
    } else {
        1 + chunk_count((n - STRIDE_WORDS) as nat)
    }
}

/// The first word of chunk `j`.
pub open spec fn chunk_first_word(j: nat) -> nat {
    j * (STRIDE_WORDS as nat)
}

/// One past the last word of chunk `j` in a text of `n` words.
pub open spec fn chunk_end_word(j: nat, n: nat) -> nat {
    if j * STRIDE_WORDS + CHUNK_WORDS <= n {
        j * (STRIDE_WORDS as nat) + (CHUNK_WORDS as nat)
    } else {
        n
    }
}

/// Chunk `j` of `v`: its index, text, and character range.
pub open spec fn chunk_spec(v: Seq<char>, j: nat) -> (nat, Seq<char>, int, int) {
    let w = word_spans(v);
    let first = w[chunk_first_word(j) as int];
    let last = w[chunk_end_word(j, w.len()) - 1];
    (j, v.subrange(first.0, last.1), first.0, last.1)
}

/// A chunk as (index, text, start offset, end offset).
pub open spec fn chunk_view(c: Chunk) -> (nat, Seq<char>, int, int) {
    (c.index as nat, c.text@, c.start_offset as int, c.end_offset as int)
}

proof fn lemma_scan_bounds(v: Seq<char>, k: nat)
    requires
        k <= v.len(),
    ensures
        ({
            let (spans, open) = scan_words(v, k);
            &&& forall|i: int|
                0 <= i < spans.len() ==> 0 <= (#[trigger] spans[i]).0 < spans[i].1 < k
            &&& forall|i: int, j: int| 0 <= i < j < spans.len() ==> spans[i].1 < spans[j].0
            &&& open matches Some(s) ==> (0 <= s < k && forall|i: int|
                0 <= i < spans.len() ==> spans[i].1 < s)
        }),
    decreases k,
{
    if k > 0 {
        lemma_scan_bounds(v, (k - 1) as nat);
        let (spans, open) = scan_words(v, (k - 1) as nat);
        let i = k - 1;
        if is_ws(v[i]) {
            if let Some(s) = open {
                let ns = spans.push((s, i));
                assert forall|a: int| 0 <= a < ns.len() implies 0 <= (#[trigger] ns[a]).0 < ns[a].1
                    < k by {
                    if a < spans.len() {
                        assert(ns[a] == spans[a]);
                    }
                }
                assert forall|a: int, b: int| 0 <= a < b < ns.len() implies ns[a].1 < ns[b].0 by {
                    assert(ns[a] == spans[a]);
                    if b < spans.len() {
                        assert(ns[b] == spans[b]);
                    }
                }
            }
        }
    }
}

/// Every word span is a non-empty range inside the text, and spans come in
/// increasing, non-overlapping order.
pub proof fn lemma_word_spans_ordered(v: Seq<char>)
    ensures
        forall|i: int|
            0 <= i < word_spans(v).len() ==> 0 <= (#[trigger] word_spans(v)[i]).0
                < word_spans(v)[i].1 <= v.len(),
        forall|i: int, j: int|
            0 <= i < j < word_spans(v).len() ==> word_spans(v)[i].1 < word_spans(v)[j].0,
{
    lemma_scan_bounds(v, v.len());
}

/// The word spans of `v`.
pub(crate) fn find_word_spans(v: &Vec<char>) -> (r: Vec<(usize, usize)>)
    ensures
        r@.len() == word_spans(v@).len(),
        forall|i: int|
            0 <= i < r@.len() ==> r@[i].0 as int == word_spans(v@)[i].0 && r@[i].1 as int
                == word_spans(v@)[i].1,
{
    let mut spans: Vec<(usize, usize)> = Vec::new();
    let mut open: Option<usize> = None;
    let mut k: usize = 0;
    while k < v.len()
        invariant
            0 <= k <= v@.len(),
            ({
                let (s, o) = scan_words(v@, k as nat);
                &&& spans@.len() == s.len()
                &&& forall|i: int|
                    0 <= i < spans@.len() ==> spans@[i].0 as int == s[i].0 && spans@[i].1 as int
                        == s[i].1
                &&& match o {
                    Some(x) => open == Some(x as usize) && 0 <= x < k,
                    None => open.is_none(),
                }
            }),
        decreases v@.len() - k,
    {
        proof {
            lemma_scan_bounds(v@, k as nat);
        }
        if is_whitespace(v[k]) {
            if let Some(s) = open {
                spans.push((s, k));
                open = None;
            }
        } else if open.is_none() {
            open = Some(k);
        }
        k += 1;
    }
    if let Some(s) = open {
        spans.push((s, v.len()));
    }
    spans
}

proof fn lemma_chunk_count_step(n: nat, j: nat)
    requires
        j * STRIDE_WORDS < n,
        j == 0 || (j - 1) * STRIDE_WORDS + CHUNK_WORDS < n,
    ensures
        chunk_end_word(j, n) == n ==> chunk_count(n) == j + 1,
        chunk_end_word(j, n) < n ==> chunk_count(n) > j + 1,
    decreases j,
{
    if j == 0 && n > CHUNK_WORDS {
        assert(chunk_count((n - STRIDE_WORDS) as nat) >= 1);
    }
    if j > 0 {
        assert(n > CHUNK_WORDS);
        lemma_chunk_count_step((n - STRIDE_WORDS) as nat, (j - 1) as nat);
    }
}

/// Splits `text` into overlapping chunks for embedding. Text with no words
/// yields no chunks.
pub fn chunk(text: &str) -> (r: Vec<Chunk>)
    ensures
        r@.len() == chunk_count(word_spans(text@).len()),
        forall|j: int| 0 <= j < r@.len() ==> chunk_view(#[trigger] r@[j]) == chunk_spec(text@, j as nat),
{
    let v = chars_of(text);
    let words = find_word_spans(&v);
    let ghost w = word_spans(v@);
    proof {
        lemma_word_spans_ordered(v@);
    }
    let mut chunks: Vec<Chunk> = Vec::new();
    if words.len() == 0 {
        return chunks;
    }
    let n = words.len();
    let mut start: usize = 0;
    loop
        invariant_except_break
            start == chunks@.len() * STRIDE_WORDS,
            start < n,
            chunks@.len() == 0 || (chunks@.len() - 1) * STRIDE_WORDS + CHUNK_WORDS < n,
        invariant
            v@ == text@,
            n == words@.len() == w.len(),
            w == word_spans(v@),
            n > 0,
            forall|i: int|
                0 <= i < n ==> words@[i].0 as int == w[i].0 && words@[i].1 as int == w[i].1,
            forall|i: int| 0 <= i < n ==> 0 <= (#[trigger] w[i]).0 < w[i].1 <= v@.len(),
            forall|j: int|
                0 <= j < chunks@.len() ==> chunk_view(#[trigger] chunks@[j]) == chunk_spec(
                    v@,
                    j as nat,
                ),
        ensures
            chunks@.len() == chunk_count(n as nat),
            forall|j: int|
                0 <= j < chunks@.len() ==> chunk_view(#[trigger] chunks@[j]) == chunk_spec(
                    v@,
                    j as nat,
                ),
        decreases n - start,
    {
        let end = if n - start >= CHUNK_WORDS { start + CHUNK_WORDS } else { n };
        let first = words[start];
        let last = words[end - 1];
        let ghost j = chunks@.len() as nat;
        proof {
            lemma_chunk_count_step(n as nat, j);
            assert(chunk_end_word(j, n as nat) == end);
            assert(w[start as int].0 <= w[end - 1].0) by {
                lemma_word_spans_ordered(v@);
                if start < end - 1 {
                    assert(w[start as int].1 < w[end - 1].0);
                }
            }
        }
        let piece = string_of_range(&v, first.0, last.1);
        let ghost before = chunks@;
        chunks.push(Chunk { index: chunks.len(), text: piece, start_offset: first.0, end_offset: last.1 });
        assert forall|i: int| 0 <= i < chunks@.len() implies chunk_view(#[trigger] chunks@[i]) == chunk_spec(v@, i as nat) by {
            if i < before.len() {
                assert(chunks@[i] == before[i]);
            }
        }
        if end == n {
            break;
        }
        start = start + STRIDE_WORDS;
    }
    chunks
}

/// Which chunks a text of `n` words has: chunk `j` exists exactly when the
/// text has a word and `j` is the first chunk, or the words run past the
/// overlap chunk `j` shares with its predecessor.
pub proof fn lemma_chunk_exists(n: nat, j: nat)
    ensures
        j < chunk_count(n) <==> (n > 0 && (j == 0 || j * STRIDE_WORDS + OVERLAP_WORDS < n)),
    decreases n,
{
    if n > CHUNK_WORDS && j > 0 {
        lemma_chunk_exists((n - STRIDE_WORDS) as nat, (j - 1) as nat);
    }
}

/// Every word of a text lands in at least one chunk.
pub proof fn lemma_every_word_is_chunked(n: nat, i: nat)
    requires
        i < n,
    ensures
        exists|j: nat|
            j < chunk_count(n) && chunk_first_word(j) <= i < #[trigger] chunk_end_word(j, n),
{
    let s = STRIDE_WORDS as int;
    vstd::arithmetic::div_mod::lemma_fundamental_div_mod(i as int, s);
    vstd::arithmetic::div_mod::lemma_mod_bound(i as int, s);
    let q: nat = (i as int / s) as nat;
    assert(q * s <= i < q * s + s);
    if q == 0 || q * s + OVERLAP_WORDS < n {
        lemma_chunk_exists(n, q);
        assert(chunk_first_word(q) <= i < chunk_end_word(q, n));
    } else {
        let p: nat = (q - 1) as nat;
        lemma_chunk_exists(n, p);
        assert(p * s == q * s - s);
        assert(chunk_first_word(p) <= i < chunk_end_word(p, n));
    }
}

/// No chunk holds more than [`CHUNK_WORDS`] words, and none is empty.
pub proof fn lemma_chunks_stay_within_budget(n: nat, j: nat)
    requires
        j < chunk_count(n),
    ensures
        0 < chunk_end_word(j, n) - chunk_first_word(j) <= CHUNK_WORDS,
{
    lemma_chunk_exists(n, j);
}

/// Consecutive chunks share exactly [`OVERLAP_WORDS`] words, and the later
/// one starts, in the text, before the earlier one ends.
pub proof fn lemma_consecutive_chunks_overlap(v: Seq<char>, j: nat)
    requires
        j + 1 < chunk_count(word_spans(v).len()),
    ensures
        chunk_end_word(j, word_spans(v).len()) - chunk_first_word(j + 1) == OVERLAP_WORDS,
        chunk_spec(v, j + 1).2 < chunk_spec(v, j).3,
{
    let n = word_spans(v).len();
    lemma_chunk_exists(n, j + 1);
    assert((j + 1) * STRIDE_WORDS == j * STRIDE_WORDS + STRIDE_WORDS) by (nonlinear_arith);
    lemma_word_spans_ordered(v);
    let w = word_spans(v);
    let a = chunk_first_word(j + 1) as int;
    let b = chunk_end_word(j, n) - 1;
    assert(a < b);
    assert(w[a].1 < w[b].0);
}

/// The last chunk of a text split into several carries more than the
/// overlap: it is never a sliver of a word or two.
pub proof fn lemma_last_chunk_is_no_sliver(n: nat)
    requires
        chunk_count(n) >= 2,
    ensures
        chunk_end_word((chunk_count(n) - 1) as nat, n) - chunk_first_word(
            (chunk_count(n) - 1) as nat,
        ) > OVERLAP_WORDS,
{
    let c = chunk_count(n);
    let j: nat = (c - 1) as nat;
    lemma_chunk_exists(n, j);
    lemma_chunk_exists(n, c);
}

proof fn lemma_scan_edges(v: Seq<char>, k: nat)
    requires
        k <= v.len(),
    ensures
        ({
            let (spans, open) = scan_words(v, k);
            &&& forall|i: int|
                0 <= i < spans.len() ==> !is_ws(v[(#[trigger] spans[i]).0]) && !is_ws(v[spans[i].1 - 1])
            &&& open matches Some(s) ==> !is_ws(v[s]) && !is_ws(v[k - 1])
        }),
    decreases k,
{
    if k > 0 {
        lemma_scan_edges(v, (k - 1) as nat);
        lemma_scan_bounds(v, (k - 1) as nat);
        let (spans, open) = scan_words(v, (k - 1) as nat);
        let i = k - 1;
        if is_ws(v[i]) {
            if let Some(s) = open {
                let ns = spans.push((s, i));
                assert forall|a: int| 0 <= a < ns.len() implies !is_ws(v[(#[trigger] ns[a]).0]) && !is_ws(
                    v[ns[a].1 - 1],
                ) by {
                    if a < spans.len() {
                        assert(ns[a] == spans[a]);
                    }
                }
            }
        }
    }
}

/// Every word span starts and ends with a non-whitespace character.
proof fn lemma_word_span_edges(v: Seq<char>)
    ensures
        forall|i: int|
            0 <= i < word_spans(v).len() ==> !is_ws(v[(#[trigger] word_spans(v)[i]).0]) && !is_ws(
                v[word_spans(v)[i].1 - 1],
            ),
{
    lemma_scan_edges(v, v.len());
    lemma_scan_bounds(v, v.len());
    let (spans, open) = scan_words(v, v.len());
    if let Some(s) = open {
        let ns = spans.push((s, v.len() as int));
        assert forall|a: int| 0 <= a < ns.len() implies !is_ws(v[(#[trigger] ns[a]).0]) && !is_ws(
            v[ns[a].1 - 1],
        ) by {
            if a < spans.len() {
                assert(ns[a] == spans[a]);
            }
        }
    }
}

/// Every chunk is a non-empty range of the text whose own text is that
/// range, already trimmed: it starts and ends on a word.
pub proof fn lemma_chunk_text_is_trimmed(v: Seq<char>, j: nat)
    requires
        j < chunk_count(word_spans(v).len()),
    ensures
        ({
            let (_, t, start, end) = chunk_spec(v, j);
            &&& 0 <= start < end <= v.len()
            &&& t == v.subrange(start, end)
            &&& t.len() > 0
            &&& !is_ws(t[0]) && !is_ws(t.last())
            &&& trim(t) == t
        }),
{
    let w = word_spans(v);
    let n = w.len();
    lemma_chunks_stay_within_budget(n, j);
    lemma_chunk_exists(n, j);
    lemma_word_spans_ordered(v);
    lemma_word_span_edges(v);
    let a = chunk_first_word(j) as int;
    let b = chunk_end_word(j, n) - 1;
    assert(0 <= a <= b < n);
    if a < b {
        assert(w[a].1 < w[b].0);
    }
    let t = v.subrange(w[a].0, w[b].1);
    assert(t[0] == v[w[a].0]);
    assert(t.last() == v[w[b].1 - 1]);
    assert(trim_end(t) == t);
    assert(trim_start(t) == t);
}

/// The number of chunks in closed form: none for no words, otherwise one,
/// plus one per started stride of words beyond the first chunk's budget
/// (180 words give one chunk, 181 give two).
pub proof fn lemma_chunk_count_formula(n: nat)
    ensures
        chunk_count(n) == if n == 0 {
            0
        } else {
            1 + ((if n > CHUNK_WORDS {
                n - CHUNK_WORDS
            } else {
                0
            }) + STRIDE_WORDS - 1) / (STRIDE_WORDS as int)
        },
    decreases n,
{
    if n > CHUNK_WORDS {
        let m = (n - STRIDE_WORDS) as nat;
        lemma_chunk_count_formula(m);
        if m > CHUNK_WORDS {
            let x = m - CHUNK_WORDS + STRIDE_WORDS - 1;
            assert((x + STRIDE_WORDS) / (STRIDE_WORDS as int) == x / (STRIDE_WORDS as int) + 1);
        }
    }
}

} // verus!
