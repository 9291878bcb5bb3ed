//! Depth-scoped destination lookup for the `@` picker.
//!
//! Both lookups work at one hierarchy depth: `None` is the top level,
//! `Some(id)` that destination's children. They see only live, non-system
//! destinations, so the hidden Unsorted destination never appears, while
//! Random Thoughts stays reachable. Matching is case-insensitive.
use vstd::prelude::*;

use crate::schema::destinations::{is_live, Destination};
use crate::text::{chars_of, lowercase, to_lowercase};

verus! {

/// Whether `d` is offered at depth `parent`: live, not a system
/// destination, and a child of `parent`.
pub open spec fn visible_at(d: Destination, parent: Option<u128>) -> bool {
    is_live(d) && !d.is_system && d.parent_id == parent
}

/// Whether `needle` occurs in `hay` as a contiguous run.
pub open spec fn is_substring(needle: Seq<char>, hay: Seq<char>) -> bool {
    exists|i: int| 0 <= i <= hay.len() - needle.len() && #[trigger] hay.subrange(i, i + needle.len()) == needle
}

/// Whether `needle` starts `hay`.
pub open spec fn is_prefix(needle: Seq<char>, hay: Seq<char>) -> bool {
    needle.len() <= hay.len() && hay.subrange(0, needle.len() as int) == needle
}

/// Whether the dropdown offers `d` for the lowercased query `needle`: an
/// empty query offers everything, otherwise a prefix of the trigger or a
/// substring of the name matches.
pub open spec fn offered(d: Destination, needle: Seq<char>) -> bool {
    ||| needle.len() == 0
    ||| is_prefix(needle, lowercase(d.trigger@))
    ||| is_substring(needle, lowercase(d.name@))
}

/// The destinations of `all` the dropdown shows at depth `parent` for the
/// lowercased query `needle`, in order.
pub open spec fn candidates_spec(all: Seq<Destination>, parent: Option<u128>, needle: Seq<char>) -> Seq<Destination>
    decreases all.len(),
{
    if all.len() == 0 {
        all
    } else {
        let rest = candidates_spec(all.drop_last(), parent, needle);
        let d = all.last();
        if visible_at(d, parent) && offered(d, needle) {
            rest.push(d)
        } else {
            rest
        }
    }
}

/// The first destination at or after `i` visible at `parent` whose
/// lowercased trigger is `needle`.
pub open spec fn trigger_match_from(all: Seq<Destination>, parent: Option<u128>, needle: Seq<char>, i: nat) -> Option<nat>
    decreases all.len() - i,
{
    if i >= all.len() {
        None
    } else if visible_at(all[i as int], parent) && lowercase(all[i as int].trigger@) == needle {
        Some(i)
    } else {
        trigger_match_from(all, parent, needle, i + 1)
    }
}

/// The first destination at or after `i` visible at `parent` whose
/// lowercased name is `needle`.
pub open spec fn name_match_from(all: Seq<Destination>, parent: Option<u128>, needle: Seq<char>, i: nat) -> Option<nat>
    decreases all.len() - i,
{
    if i >= all.len() {
        None
    } else if visible_at(all[i as int], parent) && lowercase(all[i as int].name@) == needle {
        Some(i)
    } else {
        name_match_from(all, parent, needle, i + 1)
    }
}

/// The index in `all` of the destination a typed chain segment resolves to
/// at depth `parent`: a trigger match first, a name match second.
pub open spec fn exact_index(all: Seq<Destination>, parent: Option<u128>, segment: Seq<char>) -> Option<nat> {
    let needle = lowercase(segment);
    match trigger_match_from(all, parent, needle, 0) {
        Some(i) => Some(i),
        None => name_match_from(all, parent, needle, 0),
    }
}

proof fn lemma_match_from_bounds(all: Seq<Destination>, parent: Option<u128>, needle: Seq<char>, i: nat)
    ensures
        trigger_match_from(all, parent, needle, i) matches Some(j) ==> i <= j < all.len(),
        name_match_from(all, parent, needle, i) matches Some(j) ==> i <= j < all.len(),
    decreases all.len() - i,
{
    if i < all.len() {
        lemma_match_from_bounds(all, parent, needle, i + 1);
    }
}

/// A resolved segment names a destination that is in `all`.
pub proof fn lemma_exact_index_in_bounds(all: Seq<Destination>, parent: Option<u128>, segment: Seq<char>)
    ensures
        exact_index(all, parent, segment) matches Some(j) ==> j < all.len(),
{
    lemma_match_from_bounds(all, parent, lowercase(segment), 0);
}

/// Whether the characters `n` are a prefix of `h`.
fn starts_with(h: &Vec<char>, n: &Vec<char>) -> (b: bool)
    ensures
        b == is_prefix(n@, h@),
{
    if n.len() > h.len() {
        return false;
    }
    let mut k: usize = 0;
    while k < n.len()
        invariant
            n@.len() <= h@.len(),
            k <= n@.len(),
            forall|t: int| 0 <= t < k ==> h@[t] == n@[t],
        decreases n@.len() - k,
    {
        if h[k] != n[k] {
            assert(h@.subrange(0, n@.len() as int)[k as int] != n@[k as int]);
            return false;
        }
        k += 1;
    }
    assert(h@.subrange(0, n@.len() as int) =~= n@);
    true
}

/// Whether the characters `n` occur contiguously in `h`.
fn contains_chars(h: &Vec<char>, n: &Vec<char>) -> (b: bool)
    ensures
        b == is_substring(n@, h@),
{
    if n.len() > h.len() {
        assert forall|i: int| 0 <= i <= h@.len() - n@.len() implies #[trigger] h@.subrange(
            i,
            i + n@.len(),
        ) != n@ by {}
        return false;
    }
    let mut i: usize = 0;
    while i <= h.len() - n.len()
        invariant
            n@.len() <= h@.len(),
            i <= h@.len() - n@.len() + 1,
            forall|j: int| 0 <= j < i ==> #[trigger] h@.subrange(j, j + n@.len()) != n@,
        decreases h@.len() - n@.len() + 1 - i,
    {
        let mut k: usize = 0;
        let mut same = true;
        let hl = h.len();
        while k < n.len()
            invariant
                hl == h@.len(),
                i + n@.len() <= h@.len(),
                k <= n@.len(),
                same == forall|t: int| 0 <= t < k ==> h@[i + t] == n@[t],
            decreases n@.len() - k,
        {
            if h[i + k] != n[k] {
                same = false;
            }
            k += 1;
        }
        if same {
            assert(h@.subrange(i as int, i + n@.len()) =~= n@);
            return true;
        }
        assert(h@.subrange(i as int, i + n@.len()) != n@) by {
            let t = choose|t: int| 0 <= t < n@.len() && h@[i + t] != n@[t];
            assert(h@.subrange(i as int, i + n@.len())[t] == h@[i + t]);
        }
        i += 1;
    }
    false
}

/// Live, filtered dropdown contents for one depth: destinations at `parent`
/// whose trigger starts with, or whose name contains, the lowercased
/// `query`; an empty query lists everything at that depth.
pub fn candidates_at_depth(all: &Vec<Destination>, parent_id: Option<u128>, query: &str) -> (r: Vec<Destination>)
    ensures
        r@ == candidates_spec(all@, parent_id, lowercase(query@)),
{
    let needle_s = to_lowercase(query);
    let needle = chars_of(needle_s.as_str());
    let mut out: Vec<Destination> = Vec::new();
    let mut i: usize = 0;
    while i < all.len()
        invariant
            i <= all@.len(),
            needle@ == lowercase(query@),
            out@ == candidates_spec(all@.take(i as int), parent_id, needle@),
        decreases all@.len() - i,
    {
        let d = &all[i];
        assert(all@.take(i + 1).drop_last() =~= all@.take(i as int));
        if d.deleted_at.is_none() && !d.is_system && d.parent_id == parent_id {
            let keep = if needle.len() == 0 {
                true
            } else {
                let t = chars_of(to_lowercase(d.trigger.as_str()).as_str());
                if starts_with(&t, &needle) {
                    true
                } else {
                    let n = chars_of(to_lowercase(d.name.as_str()).as_str());
                    contains_chars(&n, &needle)
                }
            };
            if keep {
                out.push(d.duplicate());
            }
        }
        i += 1;
    }
    assert(all@.take(all@.len() as int) =~= all@);
    out
}

/// The index of the destination `segment` resolves to at depth `parent`.
pub fn exact_match_index(all: &Vec<Destination>, parent_id: Option<u128>, segment: &str) -> (r: Option<usize>)
    ensures
        match r {
            Some(i) => exact_index(all@, parent_id, segment@) == Some(i as nat) && i < all@.len(),
            None => exact_index(all@, parent_id, segment@) is None,
        },
{
    let needle = to_lowercase(segment);
    let mut i: usize = 0;
    while i < all.len()
        invariant
            i <= all@.len(),
            needle@ == lowercase(segment@),
            trigger_match_from(all@, parent_id, needle@, i as nat) == trigger_match_from(
                all@,
                parent_id,
                needle@,
                0,
            ),
        decreases all@.len() - i,
    {
        let d = &all[i];
        if d.deleted_at.is_none() && !d.is_system && d.parent_id == parent_id {
            if to_lowercase(d.trigger.as_str()) == needle {
                return Some(i);
            }
        }
        i += 1;
    }
    let mut j: usize = 0;
    while j < all.len()
        invariant
            j <= all@.len(),
            needle@ == lowercase(segment@),
            trigger_match_from(all@, parent_id, needle@, 0) is None,
            name_match_from(all@, parent_id, needle@, j as nat) == name_match_from(
                all@,
                parent_id,
                needle@,
                0,
            ),
        decreases all@.len() - j,
    {
        let d = &all[j];
        if d.deleted_at.is_none() && !d.is_system && d.parent_id == parent_id {
            if to_lowercase(d.name.as_str()) == needle {
                return Some(j);
            }
        }
        j += 1;
    }
    None
}

/// The destination a typed chain segment resolves to at depth `parent`, or
/// `None` when nothing matches: a trigger match first, then a name match.
pub fn exact_match(all: &Vec<Destination>, parent_id: Option<u128>, segment: &str) -> (r: Option<Destination>)
    ensures
        match exact_index(all@, parent_id, segment@) {
            Some(i) => r == Some(all@[i as int]),
            None => r is None,
        },
{
    match exact_match_index(all, parent_id, segment) {
        Some(i) => Some(all[i].duplicate()),
        None => None,
    }
}

proof fn lemma_matches_are_visible(all: Seq<Destination>, parent: Option<u128>, needle: Seq<char>, i: nat)
    ensures
        trigger_match_from(all, parent, needle, i) matches Some(j) ==> visible_at(all[j as int], parent)
            && lowercase(all[j as int].trigger@) == needle,
        name_match_from(all, parent, needle, i) matches Some(j) ==> visible_at(all[j as int], parent)
            && lowercase(all[j as int].name@) == needle,
    decreases all.len() - i,
{
    if i < all.len() {
        lemma_matches_are_visible(all, parent, needle, i + 1);
    }
}

/// A segment only ever resolves to a live, non-system destination at the
/// depth being searched, whose trigger or name is the segment up to case:
/// the hidden Unsorted destination and tombstoned rows are never typed into.
pub proof fn lemma_exact_match_is_visible(all: Seq<Destination>, parent: Option<u128>, segment: Seq<char>)
    ensures
        exact_index(all, parent, segment) matches Some(j) ==> {
            &&& j < all.len()
            &&& visible_at(all[j as int], parent)
            &&& (lowercase(all[j as int].trigger@) == lowercase(segment) || lowercase(
                all[j as int].name@,
            ) == lowercase(segment))
        },
{
    lemma_exact_index_in_bounds(all, parent, segment);
    lemma_matches_are_visible(all, parent, lowercase(segment), 0);
}

/// Whether `d` is in `ds`.
proof fn lemma_candidates_keep(all: Seq<Destination>, parent: Option<u128>, needle: Seq<char>, i: int)
    requires
        0 <= i < all.len(),
        visible_at(all[i], parent),
        offered(all[i], needle),
    ensures
        candidates_spec(all, parent, needle).contains(all[i]),
    decreases all.len(),
{
    let rest = candidates_spec(all.drop_last(), parent, needle);
    if i == all.len() - 1 {
        assert(candidates_spec(all, parent, needle) == rest.push(all[i]));
        assert(rest.push(all[i])[rest.len() as int] == all[i]);
    } else {
        assert(all.drop_last()[i] == all[i]);
        lemma_candidates_keep(all.drop_last(), parent, needle, i);
        let k = choose|k: int| 0 <= k < rest.len() && rest[k] == all[i];
        let r = candidates_spec(all, parent, needle);
        if r != rest {
            assert(r == rest.push(all.last()));
            assert(r[k] == rest[k]);
        }
    }
}

proof fn lemma_candidates_sound(all: Seq<Destination>, parent: Option<u128>, needle: Seq<char>, k: int)
    requires
        0 <= k < candidates_spec(all, parent, needle).len(),
    ensures
        exists|i: int| 0 <= i < all.len() && all[i] == candidates_spec(all, parent, needle)[k]
            && visible_at(all[i], parent) && offered(all[i], needle),
    decreases all.len(),
{
    let rest = candidates_spec(all.drop_last(), parent, needle);
    let r = candidates_spec(all, parent, needle);
    if k < rest.len() {
        assert(r[k] == rest[k]);
        lemma_candidates_sound(all.drop_last(), parent, needle, k);
        let i = choose|i: int| 0 <= i < all.drop_last().len() && all.drop_last()[i] == rest[k]
            && visible_at(all.drop_last()[i], parent) && offered(all.drop_last()[i], needle);
        assert(all[i] == all.drop_last()[i]);
    } else {
        assert(all[all.len() - 1] == all.last());
    }
}

/// The picker at depth `parent` for the query `query` lists exactly the
/// live, non-system destinations at that depth that the query picks out:
/// every destination whose lowercased trigger starts with the lowercased
/// query, every one whose lowercased name contains it, and every one when
/// the query is empty, is listed; and whatever is listed is such a
/// destination.
pub proof fn lemma_candidates_match_query(all: Seq<Destination>, parent: Option<u128>, query: Seq<char>)
    ensures
        forall|i: int|
            0 <= i < all.len() && all[i].deleted_at is None && !all[i].is_system && all[i].parent_id == parent
                && ({
                let q = lowercase(query);
                let t = lowercase(all[i].trigger@);
                let n = lowercase(all[i].name@);
                ||| q.len() == 0
                ||| q.len() <= t.len() && t.subrange(0, q.len() as int) == q
                ||| exists|j: int| 0 <= j <= n.len() - q.len() && #[trigger] n.subrange(j, j + q.len()) == q
            }) ==> candidates_spec(all, parent, lowercase(query)).contains(#[trigger] all[i]),
        forall|k: int|
            0 <= k < candidates_spec(all, parent, lowercase(query)).len() ==> {
                let d = #[trigger] candidates_spec(all, parent, lowercase(query))[k];
                &&& all.contains(d)
                &&& d.deleted_at is None && !d.is_system && d.parent_id == parent
            },
{
    let q = lowercase(query);
    assert forall|i: int|
        0 <= i < all.len() && all[i].deleted_at is None && !all[i].is_system && all[i].parent_id == parent
            && ({
            let t = lowercase(all[i].trigger@);
            let n = lowercase(all[i].name@);
            ||| q.len() == 0
            ||| q.len() <= t.len() && t.subrange(0, q.len() as int) == q
            ||| exists|j: int| 0 <= j <= n.len() - q.len() && #[trigger] n.subrange(j, j + q.len()) == q
        }) implies candidates_spec(all, parent, q).contains(#[trigger] all[i]) by {
        lemma_candidates_keep(all, parent, q, i);
    }
    assert forall|k: int| 0 <= k < candidates_spec(all, parent, q).len() implies {
        let d = #[trigger] candidates_spec(all, parent, q)[k];
        &&& all.contains(d)
        &&& d.deleted_at is None && !d.is_system && d.parent_id == parent
    } by {
        lemma_candidates_sound(all, parent, q, k);
    }
}

/// Whether the query `q` (already lowercased) picks out `d`: an empty query
/// picks everything, otherwise a prefix of its lowercased trigger or a
/// substring of its lowercased name.
pub open spec fn picked_by(q: Seq<char>, d: Destination) -> bool {
    let t = lowercase(d.trigger@);
    let n = lowercase(d.name@);
    ||| q.len() == 0
    ||| q.len() <= t.len() && t.subrange(0, q.len() as int) == q
    ||| exists|j: int| 0 <= j <= n.len() - q.len() && #[trigger] n.subrange(j, j + q.len()) == q
}

proof fn lemma_candidates_filter(all: Seq<Destination>, parent: Option<u128>, q: Seq<char>)
    ensures
        candidates_spec(all, parent, q) == all.filter(
            |d: Destination| d.deleted_at is None && !d.is_system && d.parent_id == parent && picked_by(q, d),
        ),
    decreases all.len(),
{
    reveal(Seq::filter);
    if all.len() > 0 {
        lemma_candidates_filter(all.drop_last(), parent, q);
    }
}

/// The picker's list is the destinations of `all`, in their order, that
/// are live, not system destinations, at depth `parent`, and picked out by
/// the lowercased query: nothing else, nothing twice, nothing reordered.
pub proof fn lemma_candidates_are_the_picked_rows(all: Seq<Destination>, parent: Option<u128>, query: Seq<char>)
    ensures
        candidates_spec(all, parent, lowercase(query)) == all.filter(
            |d: Destination| d.deleted_at is None && !d.is_system && d.parent_id == parent && picked_by(
                lowercase(query),
                d,
            ),
        ),
{
    lemma_candidates_filter(all, parent, lowercase(query));
}

} // verus!
