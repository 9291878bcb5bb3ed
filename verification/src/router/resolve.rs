//! Routing decisions: raw capture text in, a decision out, nothing written.
//!
//! * an `@` chain whose every segment resolves is filed there directly;
//! * a chain whose next segment names nothing at its depth asks for that
//!   destination to be created under whatever resolved before it, carrying
//!   the segments after it;
//! * freeform text with a confident natural-language match is filed there;
//! * anything else is unrouted, which means Unsorted.
//!
//! Routing reads a snapshot of the destination rows; tombstoned rows count
//! as absent.
use vstd::prelude::*;
use vstd::set_lib::{lemma_int_range, lemma_len_subset, lemma_map_size, set_int_range};
use vstd::relations::injective_on;

use crate::router::candidates::{exact_index, exact_match_index, lemma_exact_index_in_bounds};
use crate::router::chain::{parse, parse_spec, ParsedCapture, ParsedCaptureView};
use crate::router::nl::{best_match, best_match_spec, NlScore};
use crate::schema::destinations::{is_live, Destination};
use crate::text::{
    chars_of, decimal_spec, is_whitespace, is_ws, lemma_decimal_injective, lowercase, push_char,
    push_decimal, string_views, to_lowercase,
};

verus! {

/// What routing decided.
#[derive(Debug, Clone, PartialEq, Eq)]
pub enum RoutingDecision {
    /// Every segment resolved: file it there.
    Resolved { destination_id: u128 },
    /// The next segment names nothing at its depth: create it under
    /// `parent_id`, with `trigger` free, then route `remaining_segments`.
    Create {
        parent_id: Option<u128>,
        name: String,
        trigger: String,
        remaining_segments: Vec<String>,
    },
    /// Freeform text matched a destination confidently.
    NlMatched { destination_id: u128, score: NlScore },
    /// Nothing matched: the capture goes to Unsorted.
    Unrouted,
}

/// A decision with the text it was made about: the chain body, or the whole
/// (right-trimmed) input when there was no chain. It may be empty.
#[derive(Debug, Clone, PartialEq, Eq)]
pub struct Routing {
    pub text: String,
    pub decision: RoutingDecision,
}

/// The mathematical value of a [`RoutingDecision`].
pub enum DecisionView {
    Resolved { destination_id: u128 },
    Create {
        parent_id: Option<u128>,
        name: Seq<char>,
        trigger: Seq<char>,
        remaining_segments: Seq<Seq<char>>,
    },
    NlMatched { destination_id: u128, score: NlScore },
    Unrouted,
}

impl View for RoutingDecision {
    type V = DecisionView;

    open spec fn view(&self) -> DecisionView {
        match self {
            RoutingDecision::Resolved { destination_id } => DecisionView::Resolved {
                destination_id: *destination_id,
            },
            RoutingDecision::Create { parent_id, name, trigger, remaining_segments } =>
                DecisionView::Create {
                parent_id: *parent_id,
                name: name@,
                trigger: trigger@,
                remaining_segments: string_views(remaining_segments@),
            },
            RoutingDecision::NlMatched { destination_id, score } => DecisionView::NlMatched {
                destination_id: *destination_id,
                score: *score,
            },
            RoutingDecision::Unrouted => DecisionView::Unrouted,
        }
    }
}

impl View for Routing {
    type V = (Seq<char>, DecisionView);

    open spec fn view(&self) -> (Seq<char>, DecisionView) {
        (self.text@, self.decision@)
    }
}

/// The live rows of `all`, in order.
pub open spec fn live_only(all: Seq<Destination>) -> Seq<Destination>
    decreases all.len(),
{
    if all.len() == 0 {
        all
    } else if is_live(all.last()) {
        live_only(all.drop_last()).push(all.last())
    } else {
        live_only(all.drop_last())
    }
}

/// The lowercased triggers of the live rows of `all`, in order.
pub open spec fn taken_triggers(all: Seq<Destination>) -> Seq<Seq<char>>
    decreases all.len(),
{
    if all.len() == 0 {
        Seq::empty()
    } else if is_live(all.last()) {
        taken_triggers(all.drop_last()).push(lowercase(all.last().trigger@))
    } else {
        taken_triggers(all.drop_last())
    }
}

/// `s` without its whitespace characters.
pub open spec fn strip_ws(s: Seq<char>) -> Seq<char>
    decreases s.len(),
{
    if s.len() == 0 {
        s
    } else if is_ws(s.last()) {
        strip_ws(s.drop_last())
    } else {
        strip_ws(s.drop_last()).push(s.last())
    }
}

/// The trigger a name suggests before collisions: lowercased, whitespace
/// removed.
pub open spec fn slug_base(name: Seq<char>) -> Seq<char> {
    strip_ws(lowercase(name))
}

/// `base` followed by the numeral of `k`.
pub open spec fn suffixed(base: Seq<char>, k: nat) -> Seq<char> {
    base + decimal_spec(k)
}

/// The first suffix at or after `k` that makes `base` free of `taken`,
/// searched up to `taken.len() + 2`, where one always is.
pub open spec fn free_suffix_from(base: Seq<char>, taken: Seq<Seq<char>>, k: nat) -> nat
    decreases taken.len() + 3 - k,
{
    if k > taken.len() + 2 {
        k
    } else if !taken.contains(suffixed(base, k)) {
        k
    } else {
        free_suffix_from(base, taken, k + 1)
    }
}

/// The trigger a router-created destination named `name` gets: its base
/// when no live trigger is that, otherwise the base with the first suffix
/// from 2 up that no live trigger is.
pub open spec fn slug_spec(all: Seq<Destination>, name: Seq<char>) -> Seq<char> {
    let base = slug_base(name);
    let taken = taken_triggers(all);
    if !taken.contains(base) {
        base
    } else {
        suffixed(base, free_suffix_from(base, taken, 2))
    }
}

/// The decision for chain segments `i..` once the segments before them
/// resolved to `parent`.
pub open spec fn walk(all: Seq<Destination>, segments: Seq<Seq<char>>, i: nat, parent: Option<u128>) -> DecisionView
    decreases segments.len() - i,
{
    if i >= segments.len() {
        match parent {
            Some(p) => DecisionView::Resolved { destination_id: p },
            None => DecisionView::Unrouted,
        }
    } else {
        match exact_index(all, parent, segments[i as int]) {
            Some(j) => walk(all, segments, i + 1, Some(all[j as int].id)),
            None => DecisionView::Create {
                parent_id: parent,
                name: segments[i as int],
                trigger: slug_spec(all, segments[i as int]),
                remaining_segments: segments.skip(i + 1 as int),
            },
        }
    }
}

/// What [`route`] decides for `input` against the rows `all`.
pub open spec fn route_spec(all: Seq<Destination>, input: Seq<char>) -> (Seq<char>, DecisionView) {
    match parse_spec(input) {
        ParsedCaptureView::PlainText(t) => (
            t,
            match best_match_spec(t, live_only(all)) {
                Some(m) => DecisionView::NlMatched {
                    destination_id: m.destination_id,
                    score: m.score,
                },
                None => DecisionView::Unrouted,
            },
        ),
        ParsedCaptureView::Chain { body, segments } => (body, walk(all, segments, 0, None)),
    }
}

/// Some suffix from 2 up to `taken.len() + 2` leaves `base` free: those are
/// more distinct strings than `taken` holds.
proof fn lemma_some_suffix_free(base: Seq<char>, taken: Seq<Seq<char>>)
    ensures
        exists|k: nat| 2 <= k <= taken.len() + 2 && !taken.contains(#[trigger] suffixed(base, k)),
{
    let n = taken.len();
    if forall|k: nat| 2 <= k <= n + 2 ==> taken.contains(#[trigger] suffixed(base, k)) {
        let f = |k: int| suffixed(base, k as nat);
        let x = set_int_range(2, n as int + 3);
        let y = x.map(f);
        lemma_int_range(2, n as int + 3);
        assert(injective_on(f, x)) by {
            assert forall|a: int, b: int|
                x.contains(a) && x.contains(b) && #[trigger] f(a) == #[trigger] f(b) implies a
                == b by {
                let da = decimal_spec(a as nat);
                let db = decimal_spec(b as nat);
                assert(f(a).subrange(base.len() as int, f(a).len() as int) =~= da);
                assert(f(b).subrange(base.len() as int, f(b).len() as int) =~= db);
                lemma_decimal_injective(a as nat, b as nat);
            }
        }
        lemma_map_size(x, y, f);
        let t = taken.to_set();
        assert(y.subset_of(t)) by {
            assert forall|s: Seq<char>| y.contains(s) implies t.contains(s) by {
                let k = choose|k: int| x.contains(k) && s == f(k);
                assert(taken.contains(suffixed(base, k as nat)));
            }
        }
        taken.lemma_cardinality_of_set();
        lemma_len_subset(y, t);
        assert(false);
    }
}

proof fn lemma_free_suffix(base: Seq<char>, taken: Seq<Seq<char>>, k: nat)
    requires
        2 <= k,
        forall|j: nat| 2 <= j < k ==> taken.contains(#[trigger] suffixed(base, j)),
    ensures
        ({
            let f = free_suffix_from(base, taken, k);
            &&& k <= f <= taken.len() + 2
            &&& !taken.contains(suffixed(base, f))
            &&& forall|j: nat| 2 <= j < f ==> taken.contains(#[trigger] suffixed(base, j))
        }),
    decreases taken.len() + 3 - k,
{
    lemma_some_suffix_free(base, taken);
    if k <= taken.len() + 2 && taken.contains(suffixed(base, k)) {
        lemma_free_suffix(base, taken, k + 1);
    } else if k > taken.len() + 2 {
        let w = choose|w: nat| 2 <= w <= taken.len() + 2 && !taken.contains(#[trigger] suffixed(base, w));
        assert(taken.contains(suffixed(base, w)));
    }
}

/// The trigger [`slugify_trigger`] picks is no live trigger: the base
/// itself when that is free, and otherwise the base with the least suffix
/// from 2 up that is free, every smaller suffix being taken.
pub proof fn lemma_slug_is_free(all: Seq<Destination>, name: Seq<char>)
    ensures
        !taken_triggers(all).contains(slug_spec(all, name)),
        !taken_triggers(all).contains(slug_base(name)) ==> slug_spec(all, name) == slug_base(name),
        taken_triggers(all).contains(slug_base(name)) ==> ({
            let k = free_suffix_from(slug_base(name), taken_triggers(all), 2);
            &&& 2 <= k
            &&& slug_spec(all, name) == suffixed(slug_base(name), k)
            &&& forall|j: nat|
                2 <= j < k ==> taken_triggers(all).contains(#[trigger] suffixed(slug_base(name), j))
        }),
{
    let base = slug_base(name);
    let taken = taken_triggers(all);
    if taken.contains(base) {
        lemma_free_suffix(base, taken, 2);
    }
}

/// Whether `t` is among `terms`.
fn contains_string(terms: &Vec<String>, t: &String) -> (b: bool)
    ensures
        b == string_views(terms@).contains(t@),
{
    let mut j: usize = 0;
    while j < terms.len()
        invariant
            j <= terms@.len(),
            forall|k: int| 0 <= k < j ==> terms@[k]@ != t@,
        decreases terms@.len() - j,
    {
        if terms[j] == *t {
            assert(string_views(terms@)[j as int] == t@);
            return true;
        }
        j += 1;
    }
    assert forall|k: int| 0 <= k < string_views(terms@).len() implies string_views(terms@)[k]
        != t@ by {
        assert(string_views(terms@)[k] == terms@[k]@);
    }
    false
}

/// The lowercased triggers of the live rows of `all`.
fn live_triggers(all: &Vec<Destination>) -> (r: Vec<String>)
    ensures
        string_views(r@) == taken_triggers(all@),
{
    let mut out: Vec<String> = Vec::new();
    let mut i: usize = 0;
    while i < all.len()
        invariant
            i <= all@.len(),
            string_views(out@) == taken_triggers(all@.take(i as int)),
        decreases all@.len() - i,
    {
        assert(all@.take(i + 1).drop_last() =~= all@.take(i as int));
        if all[i].deleted_at.is_none() {
            let ghost before = out@;
            out.push(to_lowercase(all[i].trigger.as_str()));
            assert(string_views(out@) =~= string_views(before).push(
                lowercase(all@[i as int].trigger@),
            ));
        }
        i += 1;
    }
    assert(all@.take(all@.len() as int) =~= all@);
    out
}

/// The live rows of `all`.
fn live_rows(all: &Vec<Destination>) -> (r: Vec<Destination>)
    ensures
        r@ == live_only(all@),
{
    let mut out: Vec<Destination> = Vec::new();
    let mut i: usize = 0;
    while i < all.len()
        invariant
            i <= all@.len(),
            out@ == live_only(all@.take(i as int)),
        decreases all@.len() - i,
    {
        assert(all@.take(i + 1).drop_last() =~= all@.take(i as int));
        if all[i].deleted_at.is_none() {
            out.push(all[i].duplicate());
        }
        i += 1;
    }
    assert(all@.take(all@.len() as int) =~= all@);
    out
}

/// A free trigger for a router-created destination named `name`:
/// lowercased and stripped of whitespace, then given the first numeric
/// suffix from 2 up while it collides with a live trigger anywhere
/// (`shop`, `shop2`, ...).
pub fn slugify_trigger(all: &Vec<Destination>, name: &str) -> (t: String)
    ensures
        t@ == slug_spec(all@, name@),
{
    let lowered = to_lowercase(name);
    let v = chars_of(lowered.as_str());
    let mut base = String::new();
    let mut i: usize = 0;
    while i < v.len()
        invariant
            i <= v@.len(),
            v@ == lowercase(name@),
            base@ == strip_ws(v@.take(i as int)),
        decreases v@.len() - i,
    {
        assert(v@.take(i + 1).drop_last() =~= v@.take(i as int));
        if !is_whitespace(v[i]) {
            push_char(&mut base, v[i]);
        }
        i += 1;
    }
    assert(v@.take(v@.len() as int) =~= v@);
    let taken = live_triggers(all);
    let ghost tk = taken_triggers(all@);
    if !contains_string(&taken, &base) {
        return base;
    }
    let n = taken.len();
    let mut k: u128 = 2;
    while k <= n as u128 + 2
        invariant
            2 <= k <= n + 3,
            n == taken@.len() == tk.len(),
            tk == taken_triggers(all@),
            string_views(taken@) == tk,
            base@ == slug_base(name@),
            tk.contains(base@),
            forall|j: nat| 2 <= j < k ==> tk.contains(#[trigger] suffixed(base@, j)),
            free_suffix_from(base@, tk, k as nat) == free_suffix_from(base@, tk, 2),
        decreases n + 3 - k,
    {
        let mut candidate = base.clone();
        push_decimal(&mut candidate, k);
        assert(candidate@ =~= suffixed(base@, k as nat));
        if !contains_string(&taken, &candidate) {
            assert(free_suffix_from(base@, tk, k as nat) == k);
            return candidate;
        }
        k += 1;
    }
    proof {
        lemma_free_suffix(base@, tk, 2);
        let f = free_suffix_from(base@, tk, 2);
        assert(tk.contains(suffixed(base@, f)));
    }
    base
}

/// Resolves raw capture text to a routing decision against the destination
/// rows `all`.
pub fn route(all: &Vec<Destination>, raw_input: &str) -> (r: Routing)
    ensures
        r@ == route_spec(all@, raw_input@),
{
    match parse(raw_input) {
        ParsedCapture::PlainText(text) => {
            let live = live_rows(all);
            let decision = match best_match(text.as_str(), &live) {
                Some(m) => RoutingDecision::NlMatched {
                    destination_id: m.destination_id,
                    score: m.score,
                },
                None => RoutingDecision::Unrouted,
            };
            Routing { text, decision }
        },
        ParsedCapture::Chain { body, segments } => {
            let ghost segs = string_views(segments@);
            let mut parent: Option<u128> = None;
            let mut i: usize = 0;
            while i < segments.len()
                invariant
                    i <= segments@.len(),
                    segs == string_views(segments@),
                    route_spec(all@, raw_input@) == (body@, walk(all@, segs, 0, None)),
                    walk(all@, segs, i as nat, parent) == walk(all@, segs, 0, None),
                decreases segments@.len() - i,
            {
                proof {
                    lemma_exact_index_in_bounds(all@, parent, segs[i as int]);
                    assert(segs[i as int] == segments@[i as int]@);
                }
                match exact_match_index(all, parent, segments[i].as_str()) {
                    Some(j) => {
                        parent = Some(all[j].id);
                    },
                    None => {
                        let trigger = slugify_trigger(all, segments[i].as_str());
                        let mut rest: Vec<String> = Vec::new();
                        let mut t = i + 1;
                        while t < segments.len()
                            invariant
                                i + 1 <= t <= segments@.len(),
                                segs == string_views(segments@),
                                string_views(rest@) == segs.subrange(i + 1, t as int),
                            decreases segments@.len() - t,
                        {
                            let ghost before = rest@;
                            rest.push(segments[t].clone());
                            assert(string_views(rest@) =~= string_views(before).push(segs[t as int]));
                            assert(segs.subrange(i + 1, t + 1) =~= segs.subrange(i + 1, t as int).push(segs[t as int]));
                            t += 1;
                        }
                        assert(segs.subrange(i + 1, segs.len() as int) =~= segs.skip(i + 1 as int));
                        let name = segments[i].clone();
                        let decision = RoutingDecision::Create {
                            parent_id: parent,
                            name,
                            trigger,
                            remaining_segments: rest,
                        };
                        assert(decision@ == walk(all@, segs, i as nat, parent));
                        return Routing { text: body, decision };
                    },
                }
                i += 1;
            }
            let decision = match parent {
                Some(p) => RoutingDecision::Resolved { destination_id: p },
                None => RoutingDecision::Unrouted,
            };
            Routing { text: body, decision }
        },
    }
}

} // verus!
