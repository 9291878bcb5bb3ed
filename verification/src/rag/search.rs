//! The model-free parts of retrieval: breaking a query into the terms the
//! keyword table is probed with, the time window a query looks back over,
//! the scope grouping of results, and slicing a matched chunk out of its text.
use vstd::prelude::*;
use vstd::string::StrSliceExecFns;

use crate::rag::chunking::{find_word_spans, word_spans};
use crate::rag::keywords::NGRAM_SIZE;
use crate::schema::destinations::{chain_to, path, Destination};
use crate::schema::records::{Edit, Embedding, Item};
use crate::text::{
    chars_of, lowercase, push_char, push_range, string_of_range, string_views, strip_edges,
    stripped_range, to_lowercase, trim, trimmed,
};

verus! {

/// Most distinct terms a query is broken into. Unigrams come first and the
/// cut takes from the tail, so a very long query loses its longest phrases,
/// never its individual words.
pub const MAX_QUERY_TERMS: usize = 200;

/// Milliseconds in a day; timestamps are Unix milliseconds throughout.
pub const MS_PER_DAY: i64 = 24 * 60 * 60 * 1000;

/// The whitespace-separated runs of `q`, each stripped of edge punctuation.
pub open spec fn stripped_tokens(q: Seq<char>) -> Seq<Seq<char>> {
    let spans = word_spans(q);
    Seq::new(spans.len(), |i: int| strip_edges(q.subrange(spans[i].0, spans[i].1)))
}

/// `ts` without its empty members, order kept.
pub open spec fn nonempty_words(ts: Seq<Seq<char>>) -> Seq<Seq<char>>
    decreases ts.len(),
{
    if ts.len() == 0 {
        ts
    } else if ts.last().len() > 0 {
        nonempty_words(ts.drop_last()).push(ts.last())
    } else {
        nonempty_words(ts.drop_last())
    }
}

/// The words of a query: whitespace-separated, stripped of edge
/// punctuation, and non-empty.
pub open spec fn query_words(q: Seq<char>) -> Seq<Seq<char>> {
    nonempty_words(stripped_tokens(q))
}

/// Words `i .. i + size` of `ws` joined by single spaces.
pub open spec fn joined(ws: Seq<Seq<char>>, i: int, size: nat) -> Seq<char>
    decreases size,
{
    if size <= 1 {
        ws[i]
    } else {
        joined(ws, i, (size - 1) as nat) + seq![' '] + ws[i + size - 1]
    }
}

/// How many runs of `size` consecutive words `n` words hold.
pub open spec fn gram_count(n: nat, size: nat) -> nat {
    if n >= size {
        (n - size + 1) as nat
    } else {
        0
    }
}

/// Every run of `size` consecutive words of `ws`, joined and lowercased, in
/// order of position.
pub open spec fn grams(ws: Seq<Seq<char>>, size: nat) -> Seq<Seq<char>> {
    Seq::new(gram_count(ws.len(), size), |i: int| lowercase(joined(ws, i, size)))
}

/// Every candidate term: all unigrams, then all bigrams, then all trigrams.
pub open spec fn candidate_terms(ws: Seq<Seq<char>>) -> Seq<Seq<char>> {
    grams(ws, 1) + grams(ws, 2) + grams(ws, 3)
}

/// The first occurrence of each member of `s`, in order.
pub open spec fn first_occurrences(s: Seq<Seq<char>>) -> Seq<Seq<char>>
    decreases s.len(),
{
    if s.len() == 0 {
        s
    } else {
        let d = first_occurrences(s.drop_last());
        if d.contains(s.last()) {
            d
        } else {
            d.push(s.last())
        }
    }
}

/// What [`query_terms`] returns for `q`.
pub open spec fn query_terms_spec(q: Seq<char>) -> Seq<Seq<char>> {
    let d = first_occurrences(candidate_terms(query_words(q)));
    if d.len() > MAX_QUERY_TERMS {
        d.take(MAX_QUERY_TERMS as int)
    } else {
        d
    }
}

/// Where the candidates of size `size` start in [`candidate_terms`].
pub open spec fn gram_offset(n: nat, size: nat) -> nat
    decreases size,
{
    if size <= 1 {
        0
    } else {
        gram_offset(n, (size - 1) as nat) + gram_count(n, (size - 1) as nat)
    }
}

/// The text of each range `(a, b)` of `v`.
pub open spec fn range_views(v: Seq<char>, r: Seq<(usize, usize)>) -> Seq<Seq<char>> {
    Seq::new(r.len(), |i: int| v.subrange(r[i].0 as int, r[i].1 as int))
}

/// Every range `(a, b)` of `r` is ordered and lies within `n`.
pub open spec fn ranges_within(r: Seq<(usize, usize)>, n: nat) -> bool {
    forall|k: int| 0 <= k < r.len() ==> (#[trigger] r[k]).0 <= r[k].1 <= n
}

proof fn lemma_candidate_index(ws: Seq<Seq<char>>, size: nat, i: int)
    requires
        1 <= size <= 3,
        0 <= i < gram_count(ws.len(), size),
    ensures
        candidate_terms(ws).len() == gram_offset(ws.len(), 4),
        gram_offset(ws.len(), size) + gram_count(ws.len(), size) <= gram_offset(ws.len(), 4),
        candidate_terms(ws)[gram_offset(ws.len(), size) + i] == grams(ws, size)[i],
{
    let g1 = grams(ws, 1);
    let g2 = grams(ws, 2);
    let g3 = grams(ws, 3);
    reveal_with_fuel(gram_offset, 4);
    assert(gram_offset(ws.len(), 2) == g1.len());
    assert(gram_offset(ws.len(), 3) == g1.len() + g2.len());
    assert(gram_offset(ws.len(), 4) == g1.len() + g2.len() + g3.len());
    assert(candidate_terms(ws) == (g1 + g2) + g3);
    if size == 1 {
        assert((g1 + g2)[i] == g1[i]);
    } else if size == 2 {
        assert((g1 + g2)[g1.len() + i] == g2[i]);
    }
}

pub(crate) proof fn lemma_first_occurrences_prefix(s: Seq<Seq<char>>, p: int)
    requires
        0 <= p <= s.len(),
    ensures
        first_occurrences(s.take(p)).len() <= first_occurrences(s).len(),
        first_occurrences(s).take(first_occurrences(s.take(p)).len() as int)
            == first_occurrences(s.take(p)),
    decreases s.len(),
{
    if p == s.len() {
        assert(s.take(p) =~= s);
        assert(first_occurrences(s).take(first_occurrences(s).len() as int) =~= first_occurrences(
            s,
        ));
    } else {
        let t = s.drop_last();
        assert(t.take(p) =~= s.take(p));
        lemma_first_occurrences_prefix(t, p);
        let k = first_occurrences(s.take(p)).len() as int;
        let d = first_occurrences(t);
        if !d.contains(s.last()) {
            assert(d.push(s.last()).take(k) =~= d.take(k));
        }
    }
}

proof fn lemma_first_occurrences_distinct(s: Seq<Seq<char>>)
    ensures
        forall|i: int, j: int|
            0 <= i < j < first_occurrences(s).len() ==> #[trigger] first_occurrences(s)[i]
                != #[trigger] first_occurrences(s)[j],
    decreases s.len(),
{
    if s.len() > 0 {
        lemma_first_occurrences_distinct(s.drop_last());
        let d = first_occurrences(s.drop_last());
        if !d.contains(s.last()) {
            let e = d.push(s.last());
            assert forall|i: int, j: int| 0 <= i < j < e.len() implies #[trigger] e[i] != #[trigger] e[j] by {
                if j < d.len() {
                    assert(e[i] == d[i] && e[j] == d[j]);
                } else {
                    assert(e[i] == d[i]);
                    if d[i] == s.last() {
                        assert(d.contains(s.last()));
                    }
                }
            }
        }
    }
}

/// No query term occurs twice.
pub proof fn lemma_query_terms_distinct(q: Seq<char>)
    ensures
        forall|i: int, j: int|
            0 <= i < j < query_terms_spec(q).len() ==> #[trigger] query_terms_spec(q)[i]
                != #[trigger] query_terms_spec(q)[j],
{
    let d = first_occurrences(candidate_terms(query_words(q)));
    lemma_first_occurrences_distinct(candidate_terms(query_words(q)));
    if d.len() > MAX_QUERY_TERMS {
        let t = d.take(MAX_QUERY_TERMS as int);
        assert forall|i: int, j: int| 0 <= i < j < t.len() implies #[trigger] t[i] != #[trigger] t[j] by {
            assert(t[i] == d[i] && t[j] == d[j]);
        }
    }
}

pub(crate) proof fn lemma_first_occurrences_step(s: Seq<Seq<char>>, p: int)
    requires
        0 <= p < s.len(),
    ensures
        first_occurrences(s.take(p + 1)) == (if first_occurrences(s.take(p)).contains(s[p]) {
            first_occurrences(s.take(p))
        } else {
            first_occurrences(s.take(p)).push(s[p])
        }),
{
    assert(s.take(p + 1).drop_last() =~= s.take(p));
}

/// Whether `t` is already among `terms`.
fn contains_term(terms: &Vec<String>, t: &String) -> (b: bool)
    ensures
        b == string_views(terms@).contains(t@),
{
    let mut j: usize = 0;
    while j < terms.len()
        invariant
            j <= terms@.len(),
            forall|k: int| 0 <= k < j ==> terms@[k]@ != t@,
        decreases terms@.len() - j,
    {
        if terms[j] == *t {
            assert(string_views(terms@)[j as int] == t@);
            return true;
        }
        j += 1;
    }
    assert forall|k: int| 0 <= k < string_views(terms@).len() implies string_views(terms@)[k]
        != t@ by {
        assert(string_views(terms@)[k] == terms@[k]@);
    }
    false
}

/// Words `i .. i + size` joined by single spaces.
fn join_words(v: &Vec<char>, words: &Vec<(usize, usize)>, i: usize, size: usize) -> (s: String)
    requires
        1 <= size,
        i + size <= words@.len(),
        ranges_within(words@, v@.len()),
    ensures
        s@ == joined(range_views(v@, words@), i as int, size as nat),
{
    let ghost wv = range_views(v@, words@);
    let nw = words.len();
    let mut s = string_of_range(v, words[i].0, words[i].1);
    let mut j: usize = 1;
    while j < size
        invariant
            nw == words@.len(),
            1 <= j <= size,
            i + size <= words@.len(),
            wv == range_views(v@, words@),
            ranges_within(words@, v@.len()),
            s@ == joined(wv, i as int, j as nat),
        decreases size - j,
    {
        push_char(&mut s, ' ');
        let w = words[i + j];
        push_range(&mut s, v, w.0, w.1);
        assert(s@ == joined(wv, i as int, (j + 1) as nat));
        j += 1;
    }
    s
}

/// The words of `v`: character ranges of its whitespace-separated runs with
/// edge punctuation stripped, empty ones dropped.
fn query_word_ranges(v: &Vec<char>) -> (r: Vec<(usize, usize)>)
    ensures
        ranges_within(r@, v@.len()),
        range_views(v@, r@) == query_words(v@),
{
    let spans = find_word_spans(v);
    let ghost toks = stripped_tokens(v@);
    let mut words: Vec<(usize, usize)> = Vec::new();
    let mut k: usize = 0;
    proof {
        crate::rag::chunking::lemma_word_spans_ordered(v@);
        assert(range_views(v@, words@) =~= nonempty_words(toks.take(0)));
    }
    while k < spans.len()
        invariant
            k <= spans@.len() == word_spans(v@).len() == toks.len(),
            toks == stripped_tokens(v@),
            forall|i: int|
                0 <= i < spans@.len() ==> spans@[i].0 as int == word_spans(v@)[i].0
                    && spans@[i].1 as int == word_spans(v@)[i].1,
            forall|i: int|
                0 <= i < word_spans(v@).len() ==> 0 <= (#[trigger] word_spans(v@)[i]).0
                    < word_spans(v@)[i].1 <= v@.len(),
            ranges_within(words@, v@.len()),
            range_views(v@, words@) == nonempty_words(toks.take(k as int)),
        decreases spans@.len() - k,
    {
        let (a, b) = stripped_range(v, spans[k].0, spans[k].1);
        assert(toks[k as int] == v@.subrange(a as int, b as int));
        assert(toks.take(k + 1).drop_last() =~= toks.take(k as int));
        let ghost before = words@;
        if a < b {
            words.push((a, b));
            assert(range_views(v@, words@) =~= range_views(v@, before).push(toks[k as int]));
        }
        k += 1;
    }
    assert(toks.take(k as int) =~= toks);
    words
}

/// Breaks a query into the terms worth looking up in the keyword table:
/// every run of one to [`NGRAM_SIZE`] words, joined by single spaces and
/// lowercased, each term once in order of first appearance, unigrams first,
/// at most [`MAX_QUERY_TERMS`] of them.
pub fn query_terms(query: &str) -> (terms: Vec<String>)
    ensures
        string_views(terms@) == query_terms_spec(query@),
{
    let v = chars_of(query);
    let words = query_word_ranges(&v);
    let n = words.len();
    let ghost wv = range_views(v@, words@);
    let ghost cands = candidate_terms(wv);
    let mut terms: Vec<String> = Vec::new();
    let ghost mut p: int = 0;
    let mut size: usize = 1;
    proof {
        assert(cands.take(0) =~= Seq::<Seq<char>>::empty());
        assert(string_views(terms@) =~= first_occurrences(cands.take(0)));
    }
    while size <= NGRAM_SIZE && terms.len() < MAX_QUERY_TERMS
        invariant
            1 <= size <= NGRAM_SIZE + 1,
            n == words@.len() == wv.len(),
            wv == range_views(v@, words@),
            cands == candidate_terms(wv),
            ranges_within(words@, v@.len()),
            terms@.len() <= MAX_QUERY_TERMS,
            terms@.len() < MAX_QUERY_TERMS ==> p == gram_offset(n as nat, size as nat),
            0 <= p <= cands.len(),
            string_views(terms@) == first_occurrences(cands.take(p)),
        decreases NGRAM_SIZE + 1 - size,
    {
        let mut i: usize = 0;
        while size <= n && i <= n - size && terms.len() < MAX_QUERY_TERMS
            invariant
                1 <= size <= NGRAM_SIZE,
                n == words@.len() == wv.len(),
                wv == range_views(v@, words@),
                cands == candidate_terms(wv),
                ranges_within(words@, v@.len()),
                i <= gram_count(n as nat, size as nat),
                terms@.len() <= MAX_QUERY_TERMS,
                p == gram_offset(n as nat, size as nat) + i,
                0 <= p <= cands.len(),
                string_views(terms@) == first_occurrences(cands.take(p)),
            decreases n - i,
        {
            proof {
                lemma_candidate_index(wv, size as nat, i as int);
                assert(p < cands.len());
                lemma_first_occurrences_step(cands, p);
            }
            let joined_words = join_words(&v, &words, i, size);
            let term = to_lowercase(joined_words.as_str());
            assert(term@ == cands[p]);
            if !contains_term(&terms, &term) {
                terms.push(term);
                assert(string_views(terms@) =~= first_occurrences(cands.take(p)).push(cands[p]));
            }
            proof {
                p = p + 1;
            }
            i += 1;
        }
        proof {
            if terms@.len() < MAX_QUERY_TERMS && size as nat <= NGRAM_SIZE {
                assert(gram_offset(n as nat, (size + 1) as nat) == gram_offset(n as nat, size as nat)
                    + gram_count(n as nat, size as nat));
            }
        }
        size += 1;
    }
    proof {
        lemma_first_occurrences_prefix(cands, p);
        if terms@.len() < MAX_QUERY_TERMS {
            assert(gram_offset(n as nat, 4) == cands.len()) by {
                if n >= 1 {
                    lemma_candidate_index(wv, 1, 0);
                } else {
                    assert(cands =~= Seq::<Seq<char>>::empty());
                }
            }
            assert(cands.take(p) =~= cands);
        } else {
            let d = first_occurrences(cands);
            assert(d.take(MAX_QUERY_TERMS as int) == first_occurrences(cands.take(p)));
            if d.len() == MAX_QUERY_TERMS {
                assert(d.take(MAX_QUERY_TERMS as int) =~= d);
            }
        }
    }
    terms
}

/// How far back a query looks.
#[derive(Debug, Clone, Copy, PartialEq, Eq, Structural)]
pub enum RetrievalWindow {
    /// The last `n` days, measured from now.
    Days(u32),
    /// All of history.
    Unbounded,
}

impl RetrievalWindow {
    /// The window a recall question starts with: thirty days.
    pub fn sleep_mode_default() -> (w: RetrievalWindow)
        ensures
            w == RetrievalWindow::Days(30),
    {
        RetrievalWindow::Days(30)
    }

    /// Whether a version stamped `timestamp_ms` falls inside this window as
    /// seen at `now_ms`. Only the lower edge bounds it, inclusively: a
    /// timestamp ahead of `now_ms` is always inside.
    pub fn contains(self, timestamp_ms: i64, now_ms: i64) -> (b: bool)
        requires
            self matches RetrievalWindow::Days(days) ==> now_ms - days * MS_PER_DAY >= i64::MIN,
        ensures
            b == match self {
                RetrievalWindow::Unbounded => true,
                RetrievalWindow::Days(days) => timestamp_ms >= now_ms - days * MS_PER_DAY,
            },
    {
        match self {
            RetrievalWindow::Unbounded => true,
            RetrievalWindow::Days(days) => {
                assert(0 <= (days as int) * 86400000 <= 4294967295 * 86400000) by (nonlinear_arith)
                    requires
                        days <= 4294967295,
                ;
                let span = (days as i64) * MS_PER_DAY;
                timestamp_ms >= now_ms - span
            },
        }
    }
}

/// Which section a search result belongs to: the scoped destination (or a
/// descendant of it), or everywhere else.
#[derive(Debug, Clone, Copy, PartialEq, Eq, Structural)]
pub enum ScopeGroup {
    InScope,
    Elsewhere,
}

/// Results per page when a caller does not say.
pub const DEFAULT_LIMIT: usize = 20;

/// Everything a caller can vary about one query. Destination ids are the
/// 128-bit values of their UUIDs.
#[derive(Debug, Clone, PartialEq, Eq, Structural)]
pub struct SearchOptions {
    pub window: RetrievalWindow,
    /// The `@` scope; `None` puts every result elsewhere.
    pub scope: Option<u128>,
    pub limit: usize,
    /// Results to skip.
    pub offset: usize,
}

impl Default for SearchOptions {
    fn default() -> (o: Self)
        ensures
            o == (SearchOptions {
                window: RetrievalWindow::Unbounded,
                scope: None,
                limit: DEFAULT_LIMIT,
                offset: 0,
            }),
    {
        SearchOptions { window: RetrievalWindow::Unbounded, scope: None, limit: DEFAULT_LIMIT, offset: 0 }
    }
}

/// The group a result filed under the destination chain `path` (root
/// first) falls in, given the query's scope.
pub open spec fn group_spec(path: Seq<u128>, scope: Option<u128>) -> ScopeGroup {
    match scope {
        Some(s) => if path.contains(s) {
            ScopeGroup::InScope
        } else {
            ScopeGroup::Elsewhere
        },
        None => ScopeGroup::Elsewhere,
    }
}

/// The group of a result whose destination has the ancestor chain `path`:
/// in scope when the scope appears anywhere in it.
pub fn scope_group(path: &Vec<u128>, scope: Option<u128>) -> (g: ScopeGroup)
    ensures
        g == group_spec(path@, scope),
{
    match scope {
        None => ScopeGroup::Elsewhere,
        Some(s) => {
            let mut k: usize = 0;
            while k < path.len()
                invariant
                    scope == Some(s),
                    k <= path@.len(),
                    forall|j: int| 0 <= j < k ==> path@[j] != s,
                decreases path@.len() - k,
            {
                if path[k] == s {
                    assert(path@[k as int] == s);
                    return ScopeGroup::InScope;
                }
                k += 1;
            }
            ScopeGroup::Elsewhere
        },
    }
}

/// The characters `start .. end` of `text`, offsets clamped to the text and
/// negative ones read as zero.
pub open spec fn slice_spec(text: Seq<char>, start: int, end: int) -> Seq<char> {
    let n = text.len() as int;
    let lo = if start < 0 {
        0
    } else if start > n {
        n
    } else {
        start
    };
    let hi = if end < lo {
        lo
    } else if end > n {
        n
    } else {
        end
    };
    text.subrange(lo, hi)
}

/// Slices `text` by Unicode scalar offsets, the units chunk offsets are
/// counted in.
pub fn slice_by_scalar(text: &str, start: i64, end: i64) -> (s: String)
    ensures
        s@ == slice_spec(text@, start as int, end as int),
{
    let v = chars_of(text);
    let n = v.len();
    let lo: usize = if start <= 0 {
        0
    } else if start as u64 >= n as u64 {
        n
    } else {
        start as usize
    };
    let hi: usize = if end <= lo as i64 {
        lo
    } else if end as u64 >= n as u64 {
        n
    } else {
        end as usize
    };
    string_of_range(&v, lo, hi)
}

/// How many times the requested page the vector side is asked for, so that
/// an exact-term match is among the candidates keyword boosting re-ranks.
pub const VECTOR_OVERFETCH: usize = 8;

/// How many vector matches a search asks for, or `None` when the answer is
/// known before the embedding model is needed: a blank query, or a page of
/// no results. Otherwise it is `offset + limit` times [`VECTOR_OVERFETCH`],
/// each step saturating at the machine limit.
pub fn vector_fetch_count(query: &str, options: &SearchOptions) -> (n: Option<usize>)
    ensures
        n is None <==> (trim(query@).len() == 0 || options.limit == 0),
        n matches Some(k) ==> k == ({
            let wanted: int = if options.offset + options.limit > usize::MAX {
                usize::MAX as int
            } else {
                options.offset + options.limit
            };
            if wanted * VECTOR_OVERFETCH > usize::MAX {
                usize::MAX as int
            } else {
                wanted * VECTOR_OVERFETCH
            }
        }),
{
    let t = trimmed(query);
    if t.as_str().unicode_len() == 0 || options.limit == 0 {
        return None;
    }
    let wanted = options.offset.saturating_add(options.limit);
    match wanted.checked_mul(VECTOR_OVERFETCH) {
        Some(n) => Some(n),
        None => Some(usize::MAX),
    }
}

/// The text and timestamp of the version a matched chunk was cut from: the
/// item's original capture when the chunk names no edit, else the edit that
/// looking it up found. `None` when that edit is gone: the match is skipped
/// rather than sliced from, and dated by, text it was not cut from.
pub fn chunk_version(item: &Item, edit_id: Option<u128>, edit: Option<Edit>) -> (r: Option<
    (String, i64),
>)
    ensures
        edit_id is None ==> (r matches Some(v) && v.0@ == item.original_text@ && v.1
            == item.created_at),
        edit_id is Some && edit is None ==> r is None,
        edit_id is Some && edit is Some ==> (r matches Some(v) && v.0@ == edit->0.text@ && v.1
            == edit->0.edited_at),
{
    match edit_id {
        None => Some((item.original_text.clone(), item.created_at)),
        Some(_) => match edit {
            Some(e) => Some((e.text, e.edited_at)),
            None => None,
        },
    }
}

/// Whether `window`, as seen at `now_ms`, holds a version stamped
/// `timestamp_ms`: only its lower edge bounds it, inclusively.
pub open spec fn window_holds(window: RetrievalWindow, timestamp_ms: i64, now_ms: i64) -> bool {
    match window {
        RetrievalWindow::Unbounded => true,
        RetrievalWindow::Days(days) => timestamp_ms >= now_ms - days * MS_PER_DAY,
    }
}

/// The ids of some destinations, in order.
pub open spec fn ids_of(chain: Seq<Destination>) -> Seq<u128> {
    Seq::new(chain.len(), |i: int| chain[i].id)
}

/// Everything a search result shows of one matched chunk, short of its
/// score.
#[derive(Debug, Clone, PartialEq, Eq)]
pub struct PlacedHit {
    pub item_id: u128,
    pub destination_id: u128,
    /// The destination's ancestors, root first.
    pub path: Vec<Destination>,
    /// Which version matched; `None` is the original capture.
    pub edit_id: Option<u128>,
    pub chunk_index: i64,
    /// Offsets into that version's text, in Unicode scalars.
    pub chunk_start_offset: i64,
    pub chunk_end_offset: i64,
    /// The matched chunk, sliced from that version's text.
    pub chunk_text: String,
    /// That version's own timestamp, the one the window is judged by.
    pub timestamp: i64,
    pub group: ScopeGroup,
}

/// Places one matched chunk of `item`, given the edit its chunk row names
/// as looked up: read from the version the chunk was cut from, judged by
/// that version's own timestamp against the window, given the destination's
/// path in the snapshot `rows` and the scope group that path puts it in.
/// `None` when the chunk's edit is gone or the version falls outside the
/// window; such a match is left out rather than failing the search.
pub fn place_hit(
    item: &Item,
    chunk: &Embedding,
    edit: Option<Edit>,
    rows: &Vec<Destination>,
    options: &SearchOptions,
    now_ms: i64,
) -> (r: Option<PlacedHit>)
    requires
        options.window matches RetrievalWindow::Days(days) ==> now_ms - days * MS_PER_DAY
            >= i64::MIN,
    ensures
        ({
            let version: Option<(Seq<char>, i64)> = if chunk.edit_id is None {
                Some((item.original_text@, item.created_at))
            } else if edit is None {
                None
            } else {
                Some((edit->0.text@, edit->0.edited_at))
            };
            match version {
                None => r is None,
                Some((text, ts)) => if !window_holds(options.window, ts, now_ms) {
                    r is None
                } else {
                    r matches Some(h) && {
                        let chain = chain_to(rows@, item.destination_id, rows@.len());
                        &&& h.item_id == item.id
                        &&& h.destination_id == item.destination_id
                        &&& h.path@ == chain
                        &&& h.edit_id == chunk.edit_id
                        &&& h.chunk_index == chunk.chunk_index
                        &&& h.chunk_start_offset == chunk.chunk_start_offset
                        &&& h.chunk_end_offset == chunk.chunk_end_offset
                        &&& h.chunk_text@ == slice_spec(
                            text,
                            chunk.chunk_start_offset as int,
                            chunk.chunk_end_offset as int,
                        )
                        &&& h.timestamp == ts
                        &&& h.group == group_spec(ids_of(chain), options.scope)
                    }
                },
            }
        }),
{
    let (text, timestamp) = match chunk_version(item, chunk.edit_id, edit) {
        Some(v) => v,
        None => {
            return None;
        },
    };
    if !options.window.contains(timestamp, now_ms) {
        return None;
    }
    let chain = path(rows, item.destination_id);
    let mut ids: Vec<u128> = Vec::new();
    let mut i: usize = 0;
    while i < chain.len()
        invariant
            i <= chain@.len(),
            ids@ == ids_of(chain@).take(i as int),
        decreases chain@.len() - i,
    {
        ids.push(chain[i].id);
        assert(ids_of(chain@).take(i + 1) =~= ids_of(chain@).take(i as int).push(chain@[i as int].id));
        i += 1;
    }
    assert(ids_of(chain@).take(i as int) =~= ids_of(chain@));
    let group = scope_group(&ids, options.scope);
    let chunk_text = slice_by_scalar(text.as_str(), chunk.chunk_start_offset, chunk.chunk_end_offset);
    Some(
        PlacedHit {
            item_id: item.id,
            destination_id: item.destination_id,
            path: chain,
            edit_id: chunk.edit_id,
            chunk_index: chunk.chunk_index,
            chunk_start_offset: chunk.chunk_start_offset,
            chunk_end_offset: chunk.chunk_end_offset,
            chunk_text,
            timestamp,
            group,
        },
    )
}

/// With a scope, a result is in scope exactly when the scoped destination
/// lies anywhere on its chain, its own destination (the chain's last entry)
/// included; without one, nothing is.
pub proof fn lemma_scope_group_law(path: Seq<u128>, scope: Option<u128>)
    ensures
        scope is None ==> group_spec(path, scope) == ScopeGroup::Elsewhere,
        scope matches Some(s) ==> (group_spec(path, scope) == ScopeGroup::InScope <==> exists|j: int|
            0 <= j < path.len() && #[trigger] path[j] == s),
        scope matches Some(s) ==> group_spec(path.push(s), scope) == ScopeGroup::InScope,
{
    if let Some(s) = scope {
        assert(path.push(s)[path.len() as int] == s);
        if group_spec(path, scope) == ScopeGroup::InScope {
            assert(path.contains(s));
        }
    }
}

} // verus!
