use blurt::router::candidates::{candidates_at_depth, exact_match};
use blurt::router::nl::{best_match, NlScore};
use blurt::router::resolve::{route, slugify_trigger, RoutingDecision};
use blurt::router::voice::normalize_spoken_at;
use blurt::schema::destinations::{Destination, DestinationKind, RANDOM_THOUGHTS_ID, UNSORTED_ID};

fn dest(id: u128, name: &str, trigger: &str, parent: Option<u128>) -> Destination {
    Destination {
        id,
        parent_id: parent,
        name: name.to_string(),
        trigger: trigger.to_string(),
        kind: DestinationKind::List,
        is_system: false,
        is_sensitive: false,
        sort_order: 0,
        created_at: 0,
        deleted_at: None,
    }
}

/// Destination rows as storage holds them after setup: the two seeded
/// destinations plus whatever a test makes, read back in display order.
struct Store {
    rows: Vec<Destination>,
    next: u128,
}

impl Store {
    fn migrated() -> Store {
        let mut unsorted = dest(UNSORTED_ID, "Unsorted", "unsorted", None);
        unsorted.is_system = true;
        let random = dest(RANDOM_THOUGHTS_ID, "Random Thoughts", "random", None);
        Store { rows: vec![unsorted, random], next: 100 }
    }

    fn make(&mut self, name: &str, trigger: &str, parent: Option<u128>) -> Destination {
        self.next += 1;
        let d = dest(self.next, name, trigger, parent);
        self.rows.push(d.clone());
        d
    }

    fn tombstone(&mut self, id: u128) {
        for row in self.rows.iter_mut() {
            if row.id == id {
                row.deleted_at = Some(1);
            }
        }
    }

    fn rows(&self) -> Vec<Destination> {
        let mut rows = self.rows.clone();
        rows.sort_by(|a, b| (a.sort_order, &a.name).cmp(&(b.sort_order, &b.name)));
        rows
    }
}

fn names(found: &[Destination]) -> Vec<&str> {
    found.iter().map(|d| d.name.as_str()).collect()
}

fn confidence(score: NlScore) -> f32 {
    let fraction = if score.name_words == 0 {
        0.0
    } else {
        score.present as f32 / score.name_words as f32
    };
    (if score.trigger_hit { 1.0 } else { 0.0 }) + (if score.name_hit { 0.6 } else { 0.0 }) + 0.4 * fraction
}

// --- natural-language matching ---

#[test]
fn matches_a_destination_whose_name_appears_as_a_whole_word() {
    let shopping = dest(101, "Shopping", "shop", None);
    let found = best_match("add milk to shopping", &vec![shopping.clone()]).expect("confident");
    assert_eq!(found.destination_id, shopping.id);
    assert!(confidence(found.score) > 0.6);
}

#[test]
fn matches_a_destination_by_its_trigger() {
    let shopping = dest(101, "Groceries", "shop", None);
    let found = best_match("tomatoes for the shop run", &vec![shopping.clone()]).expect("confident");
    assert_eq!(found.destination_id, shopping.id);
}

#[test]
fn nl_is_case_insensitive() {
    let shopping = dest(101, "Shopping", "shop", None);
    assert!(best_match("Add Milk To SHOPPING", &vec![shopping]).is_some());
}

#[test]
fn returns_none_when_nothing_matches() {
    let shopping = dest(101, "Shopping", "shop", None);
    assert!(best_match("the sky was purple today", &vec![shopping]).is_none());
}

#[test]
fn a_prefix_of_a_word_is_not_a_whole_word_match() {
    let shopping = dest(101, "Errands", "shop", None);
    assert!(best_match("i went shopping", &vec![shopping]).is_none());
}

#[test]
fn a_partial_multi_word_name_alone_is_not_confident() {
    let run = dest(101, "Weekly Grocery Run", "wgr", None);
    assert!(best_match("grocery run tomorrow", &vec![run]).is_none());
}

#[test]
fn never_matches_random_thoughts_even_when_named_outright() {
    let random = dest(RANDOM_THOUGHTS_ID, "Random Thoughts", "random", None);
    assert!(best_match("a random thoughts kind of day", &vec![random]).is_none());
}

#[test]
fn a_renamed_random_thoughts_is_still_excluded() {
    let random = dest(RANDOM_THOUGHTS_ID, "Musings", "musings", None);
    assert!(best_match("some musings today", &vec![random]).is_none());
}

#[test]
fn never_matches_a_system_destination() {
    let mut unsorted = dest(UNSORTED_ID, "Unsorted", "unsorted", None);
    unsorted.is_system = true;
    assert!(best_match("put this in unsorted", &vec![unsorted]).is_none());
}

#[test]
fn picks_the_highest_scoring_candidate() {
    let weak = dest(101, "Shopping", "shop", None);
    let strong = dest(102, "Groceries", "shopping", None);

    let found = best_match("shopping groceries", &vec![weak, strong.clone()]).expect("confident");
    assert_eq!(found.destination_id, strong.id);
}

#[test]
fn a_multi_word_name_matches_when_its_words_appear_in_order() {
    let run = dest(101, "Grocery Run", "gr", None);
    assert!(best_match("add this to the grocery run list", &vec![run]).is_some());
}

#[test]
fn an_empty_candidate_list_matches_nothing() {
    assert!(best_match("anything at all", &vec![]).is_none());
}

#[test]
fn a_tie_keeps_the_earlier_candidate_and_scores_are_reported_exactly() {
    let first = dest(101, "Milk", "m1", None);
    let second = dest(102, "Milk", "m2", None);
    let found = best_match("buy milk", &vec![first, second]).expect("confident");
    assert_eq!(found.destination_id, 101);
    assert_eq!(
        found.score,
        NlScore { trigger_hit: false, name_hit: true, present: 1, name_words: 1 }
    );
}

// --- the @ picker ---

#[test]
fn an_empty_query_lists_everything_at_that_depth() {
    let mut store = Store::migrated();
    let shopping = store.make("Shopping", "shop", None);
    store.make("Weekly", "weekly", Some(shopping.id));
    store.make("Monthly", "monthly", Some(shopping.id));

    let found = candidates_at_depth(&store.rows(), Some(shopping.id), "");
    assert_eq!(names(&found), vec!["Monthly", "Weekly"]);
}

#[test]
fn the_system_unsorted_destination_is_hidden_from_the_picker() {
    let store = Store::migrated();
    let found = candidates_at_depth(&store.rows(), None, "");
    assert!(!names(&found).contains(&"Unsorted"));
}

#[test]
fn random_thoughts_stays_reachable_by_explicit_at() {
    let store = Store::migrated();
    let found = candidates_at_depth(&store.rows(), None, "");
    assert!(names(&found).contains(&"Random Thoughts"));
}

#[test]
fn filters_by_trigger_prefix_case_insensitively() {
    let mut store = Store::migrated();
    store.make("Shopping", "shop", None);
    store.make("Errands", "errands", None);

    let found = candidates_at_depth(&store.rows(), None, "SH");
    assert_eq!(names(&found), vec!["Shopping"]);
}

#[test]
fn filters_by_name_substring() {
    let mut store = Store::migrated();
    store.make("Grocery Run", "gr", None);
    store.make("Errands", "errands", None);

    let found = candidates_at_depth(&store.rows(), None, "cery");
    assert_eq!(names(&found), vec!["Grocery Run"]);
}

#[test]
fn does_not_leak_candidates_from_another_depth() {
    let mut store = Store::migrated();
    let shopping = store.make("Shopping", "shop", None);
    store.make("Weekly", "weekly", Some(shopping.id));

    let top = candidates_at_depth(&store.rows(), None, "weekly");
    assert!(top.is_empty());
}

#[test]
fn exact_match_resolves_a_trigger_case_insensitively() {
    let mut store = Store::migrated();
    let shopping = store.make("Shopping", "shop", None);

    let found = exact_match(&store.rows(), None, "SHOP").expect("trigger match");
    assert_eq!(found.id, shopping.id);
}

#[test]
fn exact_match_falls_back_to_the_name() {
    let mut store = Store::migrated();
    let shopping = store.make("Shopping", "shop", None);

    let found = exact_match(&store.rows(), None, "shopping").expect("name match");
    assert_eq!(found.id, shopping.id);
}

#[test]
fn exact_match_prefers_a_trigger_over_another_destinations_name() {
    let mut store = Store::migrated();
    let errands = store.make("Errands", "list", None);
    store.make("list", "old", None);

    let found = exact_match(&store.rows(), None, "list").expect("resolves");
    assert_eq!(found.id, errands.id);
}

#[test]
fn exact_match_returns_none_for_an_unknown_segment() {
    let store = Store::migrated();
    assert!(exact_match(&store.rows(), None, "nope").is_none());
}

#[test]
fn exact_match_never_resolves_the_hidden_system_destination() {
    let store = Store::migrated();
    assert!(exact_match(&store.rows(), None, "unsorted").is_none());
}

#[test]
fn exact_match_is_scoped_to_the_given_depth() {
    let mut store = Store::migrated();
    let shopping = store.make("Shopping", "shop", None);
    store.make("Weekly", "weekly", Some(shopping.id));

    assert!(exact_match(&store.rows(), None, "weekly").is_none());
    assert!(exact_match(&store.rows(), Some(shopping.id), "weekly").is_some());
}

#[test]
fn exact_match_ignores_a_tombstoned_destination() {
    let mut store = Store::migrated();
    let gone = store.make("Shopping", "shop", None);
    store.tombstone(gone.id);

    assert!(exact_match(&store.rows(), None, "shop").is_none());
}

// --- routing decisions ---

#[test]
fn a_resolved_chain_files_directly() {
    let mut store = Store::migrated();
    let weekly = store.make("Weekly", "weekly", None);

    let routed = route(&store.rows(), "buy tomatoes @weekly");
    assert_eq!(routed.text, "buy tomatoes");
    assert_eq!(routed.decision, RoutingDecision::Resolved { destination_id: weekly.id });
}

#[test]
fn a_multi_segment_chain_files_at_its_deepest_segment() {
    let mut store = Store::migrated();
    let shopping = store.make("Shopping", "shop", None);
    let grocery = store.make("Grocery", "grocery", Some(shopping.id));

    let routed = route(&store.rows(), "tomatoes @shop@grocery");
    assert_eq!(routed.decision, RoutingDecision::Resolved { destination_id: grocery.id });
}

#[test]
fn a_chain_segment_resolves_case_insensitively() {
    let mut store = Store::migrated();
    let weekly = store.make("Weekly", "weekly", None);

    let routed = route(&store.rows(), "tomatoes @WEEKLY");
    assert_eq!(routed.decision, RoutingDecision::Resolved { destination_id: weekly.id });
}

#[test]
fn an_empty_body_still_routes_and_is_reported_as_empty() {
    let mut store = Store::migrated();
    let weekly = store.make("Weekly", "weekly", None);

    let routed = route(&store.rows(), "@weekly");
    assert_eq!(routed.text, "");
    assert_eq!(routed.decision, RoutingDecision::Resolved { destination_id: weekly.id });
}

#[test]
fn an_unknown_first_segment_becomes_a_top_level_create() {
    let store = Store::migrated();

    let routed = route(&store.rows(), "tomatoes @produce");
    assert_eq!(routed.text, "tomatoes");
    assert_eq!(
        routed.decision,
        RoutingDecision::Create {
            parent_id: None,
            name: "produce".to_string(),
            trigger: "produce".to_string(),
            remaining_segments: vec![],
        }
    );
}

#[test]
fn an_unknown_later_segment_creates_under_the_resolved_parent() {
    let mut store = Store::migrated();
    let shopping = store.make("Shopping", "shop", None);

    let routed = route(&store.rows(), "tomatoes @shop@grocery");
    assert_eq!(
        routed.decision,
        RoutingDecision::Create {
            parent_id: Some(shopping.id),
            name: "grocery".to_string(),
            trigger: "grocery".to_string(),
            remaining_segments: vec![],
        }
    );
}

#[test]
fn segments_after_the_first_unknown_one_are_carried_not_dropped() {
    let store = Store::migrated();

    let routed = route(&store.rows(), "tomatoes @produce@leafy");
    match routed.decision {
        RoutingDecision::Create { name, remaining_segments, .. } => {
            assert_eq!(name, "produce");
            assert_eq!(remaining_segments, vec!["leafy".to_string()]);
        }
        other => panic!("expected a Create decision, got {other:?}"),
    }
}

#[test]
fn a_create_trigger_avoids_colliding_with_a_live_trigger_anywhere() {
    let mut store = Store::migrated();
    let errands = store.make("Errands", "shop", None);

    let routed = route(&store.rows(), "tomatoes @shop@shop");
    assert_eq!(
        routed.decision,
        RoutingDecision::Create {
            parent_id: Some(errands.id),
            name: "shop".to_string(),
            trigger: "shop2".to_string(),
            remaining_segments: vec![],
        }
    );
}

#[test]
fn the_hidden_unsorted_destination_cannot_be_typed_into() {
    let store = Store::migrated();

    let routed = route(&store.rows(), "tomatoes @unsorted");
    assert_eq!(
        routed.decision,
        RoutingDecision::Create {
            parent_id: None,
            name: "unsorted".to_string(),
            trigger: "unsorted2".to_string(),
            remaining_segments: vec![],
        }
    );
}

#[test]
fn plain_text_with_a_confident_match_is_nl_matched() {
    let mut store = Store::migrated();
    let shopping = store.make("Shopping", "shop", None);

    let routed = route(&store.rows(), "add milk to shopping");
    assert_eq!(routed.text, "add milk to shopping");
    match routed.decision {
        RoutingDecision::NlMatched { destination_id, score } => {
            assert_eq!(destination_id, shopping.id);
            assert!(confidence(score) > 0.6);
        }
        other => panic!("expected an NlMatched decision, got {other:?}"),
    }
}

#[test]
fn plain_text_with_no_match_is_unrouted() {
    let mut store = Store::migrated();
    store.make("Shopping", "shop", None);

    let routed = route(&store.rows(), "the sky was purple today");
    assert_eq!(routed.text, "the sky was purple today");
    assert_eq!(routed.decision, RoutingDecision::Unrouted);
}

#[test]
fn nl_matching_never_lands_in_random_thoughts() {
    let store = Store::migrated();

    let routed = route(&store.rows(), "just a random thoughts kind of day");
    assert_eq!(routed.decision, RoutingDecision::Unrouted);
}

#[test]
fn nl_matching_searches_every_depth_not_just_the_top_level() {
    let mut store = Store::migrated();
    let shopping = store.make("Shopping", "shop", None);
    let grocery = store.make("Grocery", "grocery", Some(shopping.id));

    let routed = route(&store.rows(), "tomatoes for the grocery list");
    match routed.decision {
        RoutingDecision::NlMatched { destination_id, .. } => assert_eq!(destination_id, grocery.id),
        other => panic!("expected an NlMatched decision, got {other:?}"),
    }
}

#[test]
fn a_voice_transcript_routes_through_the_same_path_as_typed_input() {
    let mut store = Store::migrated();
    let shopping = store.make("Shopping", "shop", None);
    let grocery = store.make("Grocery", "grocery", Some(shopping.id));

    let spoken = normalize_spoken_at("buy tomatoes at shop at grocery");
    let routed = route(&store.rows(), &spoken.text);

    assert_eq!(routed.text, "buy tomatoes");
    assert_eq!(routed.decision, RoutingDecision::Resolved { destination_id: grocery.id });
}

#[test]
fn slugify_trigger_lowercases_and_strips_whitespace() {
    let store = Store::migrated();
    assert_eq!(slugify_trigger(&store.rows(), "Grocery Run"), "groceryrun");
}

#[test]
fn slugify_trigger_counts_up_past_every_taken_variant() {
    let mut store = Store::migrated();
    store.make("One", "shop", None);
    store.make("Two", "shop2", None);

    assert_eq!(slugify_trigger(&store.rows(), "shop"), "shop3");
}

#[test]
fn slugify_trigger_reuses_a_tombstoned_trigger() {
    let mut store = Store::migrated();
    let gone = store.make("One", "shop", None);
    store.tombstone(gone.id);

    assert_eq!(slugify_trigger(&store.rows(), "shop"), "shop");
}

#[test]
fn a_tombstoned_destination_is_never_nl_matched() {
    let mut store = Store::migrated();
    let gone = store.make("Shopping", "shop", None);
    store.tombstone(gone.id);

    let routed = route(&store.rows(), "add milk to shopping");
    assert_eq!(routed.decision, RoutingDecision::Unrouted);
}
