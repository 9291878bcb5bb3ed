//! Natural-language routing for freeform text with no `@` chain.
//!
//! Lightweight local keyword matching, no model. Text and each candidate's
//! trigger and name are lowercased and split into alphanumeric words. A
//! candidate scores
//!
//! ```text
//! 1.0 × (its trigger's words occur contiguously in the text)
//! + 0.6 × (its name's words occur contiguously in the text)
//! + 0.4 × (share of its name's words present anywhere in the text)
//! ```
//!
//! and is a confident match above 0.6, which takes a whole-word hit on the
//! trigger or the name. The highest score wins; a tie keeps the earlier
//! candidate. System destinations and Random Thoughts are never chosen.
//!
//! Scores are kept exact: a match reports its parts ([`NlScore`]) and
//! candidates are compared as rationals.
use vstd::prelude::*;

use crate::schema::destinations::{Destination, RANDOM_THOUGHTS_ID};
use crate::text::{alnum, chars_of, is_alphanumeric, lowercase, push_char, string_views, to_lowercase};

verus! {

/// The parts of a candidate's score.
#[derive(Debug, Clone, Copy, PartialEq, Eq, Structural)]
pub struct NlScore {
    /// The trigger's words occur contiguously in the text.
    pub trigger_hit: bool,
    /// The name's words occur contiguously in the text.
    pub name_hit: bool,
    /// How many of the name's words (counted with repetition) occur anywhere
    /// in the text.
    pub present: usize,
    /// How many words the name has.
    pub name_words: usize,
}

/// A confident natural-language match.
#[derive(Debug, Clone, Copy, PartialEq, Eq, Structural)]
pub struct NlMatch {
    pub destination_id: u128,
    pub score: NlScore,
}

/// Whole-word runs of `v`: the runs completed so far and the one still open.
pub open spec fn word_runs(v: Seq<char>) -> (Seq<Seq<char>>, Seq<char>)
    decreases v.len(),
{
    if v.len() == 0 {
        (Seq::empty(), Seq::empty())
    } else {
        let (done, cur) = word_runs(v.drop_last());
        let c = v.last();
        if alnum(c) {
            (done, cur.push(c))
        } else if cur.len() > 0 {
            (done.push(cur), Seq::empty())
        } else {
            (done, Seq::empty())
        }
    }
}

/// The maximal runs of alphanumeric characters of `v`, in order.
pub open spec fn alnum_words(v: Seq<char>) -> Seq<Seq<char>> {
    let (done, cur) = word_runs(v);
    if cur.len() > 0 {
        done.push(cur)
    } else {
        done
    }
}

/// The lowercased alphanumeric words of `text`.
pub open spec fn words_spec(text: Seq<char>) -> Seq<Seq<char>> {
    alnum_words(lowercase(text))
}

/// Whether `needle` is non-empty and occurs contiguously in `haystack`.
pub open spec fn contains_run(haystack: Seq<Seq<char>>, needle: Seq<Seq<char>>) -> bool {
    &&& needle.len() > 0
    &&& needle.len() <= haystack.len()
    &&& exists|i: int|
        0 <= i <= haystack.len() - needle.len() && #[trigger] haystack.subrange(i, i + needle.len())
            == needle
}

/// How many members of `words` occur in `haystack`, with repetition.
pub open spec fn present_count(words: Seq<Seq<char>>, haystack: Seq<Seq<char>>) -> nat
    decreases words.len(),
{
    if words.len() == 0 {
        0
    } else {
        present_count(words.drop_last(), haystack) + if haystack.contains(words.last()) {
            1nat
        } else {
            0nat
        }
    }
}

/// The score of a candidate with this trigger and name against the words of
/// a text.
pub open spec fn score_spec(haystack: Seq<Seq<char>>, trigger: Seq<char>, name: Seq<char>) -> NlScore {
    let t = words_spec(trigger);
    let n = words_spec(name);
    NlScore {
        trigger_hit: contains_run(haystack, t),
        name_hit: contains_run(haystack, n),
        present: present_count(n, haystack) as usize,
        name_words: n.len() as usize,
    }
}

/// The whole-number part of five times a score.
pub open spec fn level(s: NlScore) -> int {
    (if s.trigger_hit {
        5int
    } else {
        0int
    }) + (if s.name_hit {
        3int
    } else {
        0int
    })
}

/// The name's word count, or 1 for a name with no words.
pub open spec fn denom(s: NlScore) -> int {
    if s.name_words == 0 {
        1
    } else {
        s.name_words as int
    }
}

/// Whether a score is consistent: no more words present than the name has.
pub open spec fn score_ok(s: NlScore) -> bool {
    s.present <= s.name_words
}

/// Whether a score is above the 0.6 confidence threshold. The score is
/// `(level·m + 2·present) / (5·m)` with `m` its [`denom`].
pub open spec fn confident(s: NlScore) -> bool {
    level(s) * denom(s) + 2 * s.present > 3 * denom(s)
}

/// Whether score `a` is strictly greater than score `b`.
pub open spec fn beats(a: NlScore, b: NlScore) -> bool {
    (level(a) * denom(a) + 2 * a.present) * denom(b) > (level(b) * denom(b) + 2 * b.present)
        * denom(a)
}

/// Whether natural-language matching may choose `d`.
pub open spec fn eligible(d: Destination) -> bool {
    !d.is_system && d.id != RANDOM_THOUGHTS_ID
}

/// The best confident match among the first `k` candidates.
pub open spec fn best_among(haystack: Seq<Seq<char>>, cands: Seq<Destination>, k: nat) -> Option<NlMatch>
    decreases k,
{
    if k == 0 {
        None
    } else {
        let prior = best_among(haystack, cands, (k - 1) as nat);
        let d = cands[k - 1];
        let s = score_spec(haystack, d.trigger@, d.name@);
        if eligible(d) && confident(s) && match prior {
            None => true,
            Some(m) => beats(s, m.score),
        } {
            Some(NlMatch { destination_id: d.id, score: s })
        } else {
            prior
        }
    }
}

/// What [`best_match`] returns for `text` and `cands`.
pub open spec fn best_match_spec(text: Seq<char>, cands: Seq<Destination>) -> Option<NlMatch> {
    best_among(words_spec(text), cands, cands.len())
}

/// The lowercased alphanumeric words of `text`.
pub fn words(text: &str) -> (r: Vec<String>)
    ensures
        string_views(r@) == words_spec(text@),
{
    let lowered = to_lowercase(text);
    let v = chars_of(lowered.as_str());
    let mut done: Vec<String> = Vec::new();
    let mut cur = String::new();
    let mut open = false;
    let mut i: usize = 0;
    while i < v.len()
        invariant
            i <= v@.len(),
            open == (cur@.len() > 0),
            v@ == lowercase(text@),
            string_views(done@) == word_runs(v@.take(i as int)).0,
            cur@ == word_runs(v@.take(i as int)).1,
        decreases v@.len() - i,
    {
        let c = v[i];
        assert(v@.take(i + 1).drop_last() =~= v@.take(i as int));
        if is_alphanumeric(c) {
            push_char(&mut cur, c);
            open = true;
        } else if open {
            let ghost before = done@;
            let mut finished = String::new();
            std::mem::swap(&mut finished, &mut cur);
            open = false;
            done.push(finished);
            assert(string_views(done@) =~= string_views(before).push(finished@));
        } else {
            cur = String::new();
        }
        i += 1;
    }
    assert(v@.take(v@.len() as int) =~= v@);
    if open {
        let ghost before = done@;
        done.push(cur);
        assert(string_views(done@) =~= string_views(before).push(word_runs(v@).1));
    }
    done
}

/// Whether `needle` is non-empty and occurs contiguously in `haystack`.
fn contains_sequence(haystack: &Vec<String>, needle: &Vec<String>) -> (b: bool)
    ensures
        b == contains_run(string_views(haystack@), string_views(needle@)),
{
    let ghost h = string_views(haystack@);
    let ghost n = string_views(needle@);
    let hl = haystack.len();
    let nl = needle.len();
    if nl == 0 || nl > hl {
        return false;
    }
    let mut i: usize = 0;
    while i <= hl - nl
        invariant
            hl == haystack@.len() == h.len(),
            nl == needle@.len() == n.len(),
            0 < nl <= hl,
            i <= hl - nl + 1,
            h == string_views(haystack@),
            n == string_views(needle@),
            forall|j: int| 0 <= j < i ==> #[trigger] h.subrange(j, j + nl) != n,
        decreases hl - nl + 1 - i,
    {
        let mut k: usize = 0;
        let mut same = true;
        while k < nl
            invariant
                hl == haystack@.len() == h.len(),
                nl == needle@.len() == n.len(),
                i + nl <= hl,
                k <= nl,
                h == string_views(haystack@),
                n == string_views(needle@),
                same == forall|t: int| 0 <= t < k ==> h[i + t] == n[t],
            decreases nl - k,
        {
            assert(h[i + k] == haystack@[i + k]@ && n[k as int] == needle@[k as int]@);
            if !(haystack[i + k] == needle[k]) {
                same = false;
            }
            k += 1;
        }
        if same {
            assert(h.subrange(i as int, i + nl) =~= n);
            return true;
        }
        assert(h.subrange(i as int, i + nl) != n) by {
            let t = choose|t: int| 0 <= t < nl && h[i + t] != n[t];
            assert(h.subrange(i as int, i + nl)[t] == h[i + t]);
        }
        i += 1;
    }
    false
}

/// Whether `w` is among `haystack`.
fn contains_word(haystack: &Vec<String>, w: &String) -> (b: bool)
    ensures
        b == string_views(haystack@).contains(w@),
{
    let mut j: usize = 0;
    while j < haystack.len()
        invariant
            j <= haystack@.len(),
            forall|k: int| 0 <= k < j ==> haystack@[k]@ != w@,
        decreases haystack@.len() - j,
    {
        if haystack[j] == *w {
            assert(string_views(haystack@)[j as int] == w@);
            return true;
        }
        j += 1;
    }
    assert forall|k: int| 0 <= k < string_views(haystack@).len() implies string_views(haystack@)[k]
        != w@ by {
        assert(string_views(haystack@)[k] == haystack@[k]@);
    }
    false
}

/// The score of the candidate with `trigger` and `name` against the words
/// of a text.
pub fn score(haystack: &Vec<String>, trigger: &str, name: &str) -> (s: NlScore)
    ensures
        s == score_spec(string_views(haystack@), trigger@, name@),
        score_ok(s),
{
    let t = words(trigger);
    let n = words(name);
    let trigger_hit = contains_sequence(haystack, &t);
    let name_hit = contains_sequence(haystack, &n);
    let mut present: usize = 0;
    let mut k: usize = 0;
    while k < n.len()
        invariant
            k <= n@.len(),
            present == present_count(string_views(n@).take(k as int), string_views(haystack@)),
            present <= k,
        decreases n@.len() - k,
    {
        assert(string_views(n@).take(k + 1).drop_last() =~= string_views(n@).take(k as int));
        if contains_word(haystack, &n[k]) {
            present += 1;
        }
        k += 1;
    }
    assert(string_views(n@).take(k as int) =~= string_views(n@));
    NlScore { trigger_hit, name_hit, present, name_words: n.len() }
}

/// Whether a score is above the confidence threshold.
pub fn is_confident(s: NlScore) -> (b: bool)
    requires
        score_ok(s),
    ensures
        b == confident(s),
{
    let l: u8 = (if s.trigger_hit { 5 } else { 0 }) + (if s.name_hit { 3 } else { 0 });
    proof {
        let m = denom(s);
        assert(l == level(s));
        if l >= 5 {
            assert(l * m >= 5 * m) by (nonlinear_arith)
                requires
                    l >= 5,
                    m >= 1,
            ;
        } else if l == 3 {
        } else {
            assert(l == 0);
            assert(s.present <= m);
        }
    }
    l >= 5 || (l == 3 && s.present > 0)
}

/// Whether score `a` is strictly greater than score `b`.
pub fn outscores(a: NlScore, b: NlScore) -> (r: bool)
    requires
        score_ok(a),
        score_ok(b),
    ensures
        r == beats(a, b),
{
    let la: u8 = (if a.trigger_hit { 5 } else { 0 }) + (if a.name_hit { 3 } else { 0 });
    let lb: u8 = (if b.trigger_hit { 5 } else { 0 }) + (if b.name_hit { 3 } else { 0 });
    let ma: u128 = if a.name_words == 0 { 1 } else { a.name_words as u128 };
    let mb: u128 = if b.name_words == 0 { 1 } else { b.name_words as u128 };
    let pa = a.present as u128;
    let pb = b.present as u128;
    proof {
        lemma_beats(la as int, lb as int, ma as int, mb as int, pa as int, pb as int);
    }
    if la == lb {
        assert(pa * mb <= 0xffff_ffff_ffff_ffff * 0xffff_ffff_ffff_ffff) by (nonlinear_arith)
            requires
                pa <= 0xffff_ffff_ffff_ffff,
                mb <= 0xffff_ffff_ffff_ffff,
        ;
        assert(pb * ma <= 0xffff_ffff_ffff_ffff * 0xffff_ffff_ffff_ffff) by (nonlinear_arith)
            requires
                pb <= 0xffff_ffff_ffff_ffff,
                ma <= 0xffff_ffff_ffff_ffff,
        ;
        pa * mb > pb * ma
    } else if la > lb {
        !(la - lb == 2 && pa == 0 && pb == mb)
    } else {
        false
    }
}

proof fn lemma_beats(la: int, lb: int, ma: int, mb: int, pa: int, pb: int)
    requires
        la == 0 || la == 3 || la == 5 || la == 8,
        lb == 0 || lb == 3 || lb == 5 || lb == 8,
        ma >= 1,
        mb >= 1,
        0 <= pa <= ma,
        0 <= pb <= mb,
    ensures
        ((la * ma + 2 * pa) * mb > (lb * mb + 2 * pb) * ma) == (if la == lb {
            pa * mb > pb * ma
        } else if la > lb {
            !(la - lb == 2 && pa == 0 && pb == mb)
        } else {
            false
        }),
{
    let x = ma * mb;
    let y = pa * mb;
    let z = pb * ma;
    let e = la - lb;
    let w = e * x;
    assert((la * ma + 2 * pa) * mb == la * x + 2 * y) by (nonlinear_arith)
        requires
            x == ma * mb,
            y == pa * mb,
    ;
    assert((lb * mb + 2 * pb) * ma == lb * x + 2 * z) by (nonlinear_arith)
        requires
            x == ma * mb,
            z == pb * ma,
    ;
    assert(la * x - lb * x == w) by (nonlinear_arith)
        requires
            w == e * x,
            e == la - lb,
    ;
    assert(x >= 1) by (nonlinear_arith)
        requires
            x == ma * mb,
            ma >= 1,
            mb >= 1,
    ;
    assert(0 <= z <= x) by (nonlinear_arith)
        requires
            z == pb * ma,
            x == ma * mb,
            0 <= pb <= mb,
            ma >= 1,
    ;
    assert(y >= 0) by (nonlinear_arith)
        requires
            y == pa * mb,
            pa >= 0,
            mb >= 1,
    ;
    assert(pa == 0 ==> y == 0) by (nonlinear_arith)
        requires
            y == pa * mb,
    ;
    assert(y <= x) by (nonlinear_arith)
        requires
            y == pa * mb,
            x == ma * mb,
            pa <= ma,
            mb >= 1,
    ;
    assert(pa >= 1 ==> y >= 1) by (nonlinear_arith)
        requires
            y == pa * mb,
            mb >= 1,
    ;
    assert(pb < mb ==> z < x) by (nonlinear_arith)
        requires
            z == pb * ma,
            x == ma * mb,
            ma >= 1,
    ;
    assert(pb == mb ==> z == x) by (nonlinear_arith)
        requires
            z == pb * ma,
            x == ma * mb,
    ;
    if e >= 2 {
        assert(w >= 2 * x) by (nonlinear_arith)
            requires
                w == e * x,
                e >= 2,
                x >= 1,
        ;
        if e >= 3 {
            assert(w >= 3 * x) by (nonlinear_arith)
                requires
                    w == e * x,
                    e >= 3,
                    x >= 1,
            ;
        } else {
            assert(w == 2 * x);
        }
    } else if e <= -2 {
        assert(w <= -2 * x) by (nonlinear_arith)
            requires
                w == e * x,
                e <= -2,
                x >= 1,
        ;
    } else {
        assert(e == 0);
        assert(w == 0) by (nonlinear_arith)
            requires
                w == e * x,
                e == 0,
        ;
    }
}

/// The best confident destination for `text` among `candidates`, or `None`
/// when none clears the threshold. System destinations and Random Thoughts
/// are skipped; a tie keeps the earlier candidate.
pub fn best_match(text: &str, candidates: &Vec<Destination>) -> (r: Option<NlMatch>)
    ensures
        r == best_match_spec(text@, candidates@),
        r matches Some(m) ==> score_ok(m.score) && confident(m.score),
{
    let haystack = words(text);
    let ghost h = words_spec(text@);
    let mut best: Option<NlMatch> = None;
    let mut k: usize = 0;
    while k < candidates.len()
        invariant
            k <= candidates@.len(),
            string_views(haystack@) == h,
            h == words_spec(text@),
            best == best_among(h, candidates@, k as nat),
            best matches Some(m) ==> score_ok(m.score) && confident(m.score),
        decreases candidates@.len() - k,
    {
        let d = &candidates[k];
        if !d.is_system && d.id != RANDOM_THOUGHTS_ID {
            let s = score(&haystack, d.trigger.as_str(), d.name.as_str());
            if is_confident(s) {
                let better = match best {
                    None => true,
                    Some(m) => outscores(s, m.score),
                };
                if better {
                    best = Some(NlMatch { destination_id: d.id, score: s });
                }
            }
        }
        k += 1;
    }
    best
}

/// The value of a score as a numerator over [`denom`] (times five).
pub open spec fn numer(s: NlScore) -> int {
    level(s) * denom(s) + 2 * s.present
}

/// Whether there is a chosen match and `s` does not outscore it.
pub open spec fn holds_off(best: Option<NlMatch>, s: NlScore) -> bool {
    match best {
        Some(m) => !beats(s, m.score),
        None => false,
    }
}

proof fn lemma_beats_trans(a: NlScore, b: NlScore, c: NlScore)
    requires
        !beats(a, b),
        beats(c, b),
    ensures
        !beats(a, c),
{
    let (na, nb, nc) = (numer(a), numer(b), numer(c));
    let (da, db, dc) = (denom(a), denom(b), denom(c));
    assert(beats(a, b) == (na * db > nb * da));
    assert(beats(c, b) == (nc * db > nb * dc));
    assert(beats(a, c) == (na * dc > nc * da));
    assert(na * dc <= nc * da) by (nonlinear_arith)
        requires
            na * db <= nb * da,
            nc * db > nb * dc,
            da >= 1,
            db >= 1,
            dc >= 1,
    {
        assert(na * db * dc <= nb * da * dc);
        assert(nb * dc * da < nc * db * da);
        assert(na * dc * db < nc * da * db);
    }
}

/// Natural-language matching only ever chooses an eligible candidate (not a
/// system destination, not Random Thoughts), with its own confident score.
pub proof fn lemma_best_match_is_eligible(haystack: Seq<Seq<char>>, cands: Seq<Destination>, k: nat)
    requires
        k <= cands.len(),
    ensures
        best_among(haystack, cands, k) matches Some(m) ==> exists|j: int|
            0 <= j < k && eligible(#[trigger] cands[j]) && cands[j].id == m.destination_id
                && m.score == score_spec(haystack, cands[j].trigger@, cands[j].name@)
                && confident(m.score),
    decreases k,
{
    if k > 0 {
        lemma_best_match_is_eligible(haystack, cands, (k - 1) as nat);
        let d = cands[k - 1];
        let s = score_spec(haystack, d.trigger@, d.name@);
        if best_among(haystack, cands, k) != best_among(haystack, cands, (k - 1) as nat) {
            assert(eligible(cands[k - 1]));
        }
    }
}

/// The chosen match is the highest-scoring confident eligible candidate: no
/// such candidate outscores it.
pub proof fn lemma_best_match_is_best(haystack: Seq<Seq<char>>, cands: Seq<Destination>, k: nat)
    requires
        k <= cands.len(),
    ensures
        forall|j: int|
            0 <= j < k && eligible(#[trigger] cands[j]) && confident(
                score_spec(haystack, cands[j].trigger@, cands[j].name@),
            ) ==> holds_off(
                best_among(haystack, cands, k),
                score_spec(haystack, cands[j].trigger@, cands[j].name@),
            ),
    decreases k,
{
    if k > 0 {
        lemma_best_match_is_best(haystack, cands, (k - 1) as nat);
        let prior = best_among(haystack, cands, (k - 1) as nat);
        let d = cands[k - 1];
        let s = score_spec(haystack, d.trigger@, d.name@);
        let now = best_among(haystack, cands, k);
        assert forall|j: int|
            0 <= j < k && eligible(#[trigger] cands[j]) && confident(
                score_spec(haystack, cands[j].trigger@, cands[j].name@),
            ) implies holds_off(now, score_spec(haystack, cands[j].trigger@, cands[j].name@)) by {
            let sj = score_spec(haystack, cands[j].trigger@, cands[j].name@);
            if j == k - 1 {
                if now != prior {
                    assert(now == Some(NlMatch { destination_id: d.id, score: s }));
                    assert(!beats(s, s)) by (nonlinear_arith);
                } else {
                    assert(holds_off(prior, s));
                }
            } else {
                assert(holds_off(prior, sj));
                if now != prior {
                    let m = prior->0;
                    assert(beats(s, m.score));
                    lemma_beats_trans(sj, m.score, s);
                }
            }
        }
    }
}

} // verus!
