//! Keyword bookkeeping that needs no statistics: the phrase length keywords
//! are extracted at, how many are kept, how many candidates are asked for,
//! and which of a ranked candidate list survive.
use vstd::prelude::*;

use crate::rag::chunking::{find_word_spans, word_spans};
use crate::rag::search::{first_occurrences, lemma_first_occurrences_prefix, lemma_first_occurrences_step};
use crate::text::{chars_of, string_views};

verus! {

/// Most keywords kept for one text.
pub const MAX_KEYWORDS: usize = 10;

/// Longest key phrase, in words.
pub const NGRAM_SIZE: usize = 3;

/// How many candidate phrases to ask the extractor for when the text holds
/// `words` words: every 1-, 2- and 3-gram it could hold (a strict upper
/// bound on its real candidates, saturating at the machine limit), and never
/// fewer than [`MAX_KEYWORDS`].
pub open spec fn ceiling_spec(words: nat) -> nat {
    let m: nat = words * (NGRAM_SIZE as nat);
    if m > usize::MAX {
        usize::MAX as nat
    } else if m > MAX_KEYWORDS {
        m
    } else {
        MAX_KEYWORDS as nat
    }
}

/// The candidate ceiling for `text`, counting its whitespace-separated words.
pub fn candidate_ceiling(text: &str) -> (n: usize)
    ensures
        n == ceiling_spec(word_spans(text@).len()),
        n >= MAX_KEYWORDS,
{
    let v = chars_of(text);
    let words = find_word_spans(&v).len();
    let m = match words.checked_mul(NGRAM_SIZE) {
        Some(m) => m,
        None => usize::MAX,
    };
    if m > MAX_KEYWORDS {
        m
    } else {
        MAX_KEYWORDS
    }
}

/// The texts kept from keyword candidates ranked most important first: the
/// first occurrence of each text, in rank order, at most [`MAX_KEYWORDS`].
pub open spec fn kept_spec(ranked: Seq<Seq<char>>) -> Seq<Seq<char>> {
    let d = first_occurrences(ranked);
    if d.len() > MAX_KEYWORDS {
        d.take(MAX_KEYWORDS as int)
    } else {
        d
    }
}

/// A text occurs in a sequence exactly when it is among its first
/// occurrences.
proof fn lemma_first_occurrences_contains(s: Seq<Seq<char>>, x: Seq<char>)
    ensures
        s.contains(x) <==> first_occurrences(s).contains(x),
    decreases s.len(),
{
    if s.len() > 0 {
        let t = s.drop_last();
        lemma_first_occurrences_contains(t, x);
        let d = first_occurrences(t);
        if s.contains(x) {
            let i = choose|i: int| 0 <= i < s.len() && s[i] == x;
            if i < s.len() - 1 {
                assert(t[i] == x);
                if !d.contains(s.last()) {
                    let k = choose|k: int| 0 <= k < d.len() && d[k] == x;
                    assert(d.push(s.last())[k] == x);
                }
            } else if !d.contains(s.last()) {
                assert(d.push(s.last())[d.len() as int] == x);
            }
        }
        if first_occurrences(s).contains(x) {
            if !d.contains(x) {
                if d.contains(s.last()) {
                    assert(false);
                } else {
                    let k = choose|k: int|
                        0 <= k < d.push(s.last()).len() && d.push(s.last())[k] == x;
                    if k < d.len() {
                        assert(d[k] == x);
                    }
                    assert(s[s.len() - 1] == x);
                }
            } else {
                let i = choose|i: int| 0 <= i < t.len() && t[i] == x;
                assert(s[i] == x);
            }
        }
    }
}

/// Which keyword candidates, ranked most important first, are kept, as
/// their positions in `ranked`: the first position of each distinct text,
/// in order, at most [`MAX_KEYWORDS`] of them.
pub fn kept_positions(ranked: &Vec<String>) -> (kept: Vec<usize>)
    ensures
        kept@.len() == kept_spec(string_views(ranked@)).len(),
        forall|k: int|
            0 <= k < kept@.len() ==> #[trigger] kept@[k] < ranked@.len() && ranked@[kept@[k] as int]@
                == kept_spec(string_views(ranked@))[k],
        forall|k: int, j: int|
            0 <= k < kept@.len() && 0 <= j < kept@[k] ==> #[trigger] ranked@[j]@ != ranked@[#[trigger] kept@[k] as int]@,
        forall|a: int, b: int| 0 <= a < b < kept@.len() ==> #[trigger] kept@[a] < #[trigger] kept@[b],
{
    let ghost sv = string_views(ranked@);
    let mut kept: Vec<usize> = Vec::new();
    let mut p: usize = 0;
    assert(sv.take(0) =~= Seq::<Seq<char>>::empty());
    while p < ranked.len() && kept.len() < MAX_KEYWORDS
        invariant
            p <= ranked@.len(),
            sv == string_views(ranked@),
            kept@.len() <= MAX_KEYWORDS,
            kept@.len() == first_occurrences(sv.take(p as int)).len(),
            forall|k: int|
                0 <= k < kept@.len() ==> #[trigger] kept@[k] < p && sv[kept@[k] as int]
                    == first_occurrences(sv.take(p as int))[k],
            forall|k: int, j: int|
                0 <= k < kept@.len() && 0 <= j < kept@[k] ==> #[trigger] sv[j] != sv[#[trigger] kept@[k] as int],
            forall|a: int, b: int|
                0 <= a < b < kept@.len() ==> #[trigger] kept@[a] < #[trigger] kept@[b],
        decreases ranked@.len() - p,
    {
        proof {
            lemma_first_occurrences_step(sv, p as int);
        }
        let ghost d = first_occurrences(sv.take(p as int));
        let mut seen = false;
        let mut j: usize = 0;
        while j < kept.len()
            invariant
                j <= kept@.len(),
                p < ranked@.len(),
                sv == string_views(ranked@),
                d == first_occurrences(sv.take(p as int)),
                kept@.len() == d.len(),
                forall|k: int| 0 <= k < kept@.len() ==> #[trigger] kept@[k] < p && sv[kept@[k] as int] == d[k],
                seen <==> exists|k: int| 0 <= k < j && d[k] == sv[p as int],
            decreases kept@.len() - j,
        {
            if ranked[kept[j]] == ranked[p] {
                seen = true;
            }
            j += 1;
        }
        assert(seen <==> d.contains(sv[p as int]));
        if !seen {
            proof {
                assert forall|j: int| 0 <= j < p implies sv[j] != sv[p as int] by {
                    if sv[j] == sv[p as int] {
                        assert(sv.take(p as int)[j] == sv[p as int]);
                        lemma_first_occurrences_contains(sv.take(p as int), sv[p as int]);
                    }
                }
            }
            kept.push(p);
            assert(string_views(ranked@)[p as int] == ranked@[p as int]@);
        }
        p += 1;
    }
    proof {
        assert forall|k: int| 0 <= k < kept@.len() implies #[trigger] kept@[k] < ranked@.len()
            && ranked@[kept@[k] as int]@ == sv[kept@[k] as int] by {
        }
        assert forall|k: int, j: int|
            0 <= k < kept@.len() && 0 <= j < kept@[k] implies #[trigger] ranked@[j]@ != ranked@[#[trigger] kept@[k] as int]@ by {
            assert(sv[j] == ranked@[j]@);
            assert(sv[kept@[k] as int] == ranked@[kept@[k] as int]@);
        }
        let fp = first_occurrences(sv.take(p as int));
        lemma_first_occurrences_prefix(sv, p as int);
        if p == ranked.len() {
            assert(sv.take(p as int) =~= sv);
        } else {
            assert(fp.len() == MAX_KEYWORDS);
            assert(first_occurrences(sv).take(MAX_KEYWORDS as int) == fp);
        }
    }
    kept
}

} // verus!
