use blurt::rag::search::{
    query_terms, scope_group, slice_by_scalar, vector_fetch_count, RetrievalWindow, ScopeGroup, SearchOptions,
    DEFAULT_LIMIT, MAX_QUERY_TERMS, MS_PER_DAY,
};

#[test]
fn an_unbounded_window_contains_everything() {
    let now = 1_700_000_000_000;
    assert!(RetrievalWindow::Unbounded.contains(0, now));
    assert!(RetrievalWindow::Unbounded.contains(now, now));
}

#[test]
fn a_day_window_keeps_what_is_inside_it_and_drops_what_is_not() {
    let now = 1_700_000_000_000;
    let window = RetrievalWindow::Days(30);

    assert!(window.contains(now - 29 * MS_PER_DAY, now));
    assert!(!window.contains(now - 31 * MS_PER_DAY, now));
}

#[test]
fn the_window_edge_is_inclusive() {
    let now = 1_700_000_000_000;
    assert!(RetrievalWindow::Days(30).contains(now - 30 * MS_PER_DAY, now));
}

#[test]
fn a_future_timestamp_stays_in_every_window() {
    let now = 1_700_000_000_000;
    assert!(RetrievalWindow::Days(30).contains(now + MS_PER_DAY, now));
}

#[test]
fn a_zero_day_window_still_contains_this_moment() {
    let now = 1_700_000_000_000;
    assert!(RetrievalWindow::Days(0).contains(now, now));
    assert!(!RetrievalWindow::Days(0).contains(now - 1, now));
}

#[test]
fn a_single_word_query_is_one_term() {
    assert_eq!(query_terms("oranges"), vec!["oranges"]);
}

#[test]
fn terms_are_every_ngram_up_to_the_stored_limit_unigrams_first() {
    assert_eq!(
        query_terms("billing service migration"),
        vec![
            "billing",
            "service",
            "migration",
            "billing service",
            "service migration",
            "billing service migration",
        ]
    );
}

#[test]
fn terms_are_lowercased_and_stripped_of_edge_punctuation() {
    assert_eq!(query_terms("Oranges?"), vec!["oranges"]);
    assert_eq!(query_terms("(migration)"), vec!["migration"]);
}

#[test]
fn punctuation_inside_a_word_is_kept() {
    assert_eq!(query_terms("well-known"), vec!["well-known"]);
}

#[test]
fn an_empty_query_yields_no_terms() {
    assert!(query_terms("").is_empty());
    assert!(query_terms("   ").is_empty());
    assert!(query_terms("!!!").is_empty());
}

#[test]
fn repeated_words_do_not_produce_duplicate_terms() {
    assert_eq!(query_terms("milk milk"), vec!["milk", "milk milk"]);
}

#[test]
fn a_very_long_query_is_capped_but_keeps_every_single_word() {
    let words: Vec<String> = (0..300).map(|n| format!("w{n}")).collect();
    let terms = query_terms(&words.join(" "));

    assert_eq!(terms.len(), MAX_QUERY_TERMS);
    assert_eq!(terms[0], "w0");
    assert_eq!(
        terms[MAX_QUERY_TERMS - 1],
        format!("w{}", MAX_QUERY_TERMS - 1),
        "truncation must take from the phrase tail, not from the unigrams"
    );
}

#[test]
fn words_emptied_by_stripping_do_not_join_phrases() {
    assert_eq!(
        query_terms("Red -- Apple"),
        vec!["red", "apple", "red apple"]
    );
}

#[test]
fn a_long_query_with_few_distinct_words_keeps_all_of_its_phrases() {
    let terms = query_terms("a b a b a b");
    assert_eq!(terms, vec!["a", "b", "a b", "b a", "a b a", "b a b"]);
}

#[test]
fn the_default_options_search_everything_from_the_first_page() {
    let options = SearchOptions::default();
    assert_eq!(options.window, RetrievalWindow::Unbounded);
    assert_eq!(options.scope, None);
    assert_eq!(options.limit, DEFAULT_LIMIT);
    assert_eq!(options.offset, 0);
    assert_eq!(RetrievalWindow::sleep_mode_default(), RetrievalWindow::Days(30));
}

#[test]
fn a_scope_anywhere_in_the_path_puts_a_result_in_scope() {
    assert_eq!(scope_group(&vec![1, 2, 3], Some(2)), ScopeGroup::InScope);
    assert_eq!(scope_group(&vec![1, 2, 3], Some(4)), ScopeGroup::Elsewhere);
    assert_eq!(scope_group(&vec![1, 2, 3], None), ScopeGroup::Elsewhere);
}

#[test]
fn slicing_counts_characters_and_clamps_offsets() {
    assert_eq!(slice_by_scalar("héllo wörld", 6, 11), "wörld");
    assert_eq!(slice_by_scalar("héllo", -3, 2), "hé");
    assert_eq!(slice_by_scalar("héllo", 3, 99), "lo");
    assert_eq!(slice_by_scalar("héllo", 4, 2), "");
}

fn oranges_item() -> blurt::schema::records::Item {
    blurt::schema::records::Item {
        id: 1,
        destination_id: 3,
        original_text: "buy oranges".to_string(),
        current_text: "buy blood oranges".to_string(),
        checked: None,
        created_at: 100,
        deleted_at: None,
    }
}

#[test]
fn an_original_chunk_is_read_from_the_capture() {
    let item = oranges_item();
    assert_eq!(
        blurt::rag::search::chunk_version(&item, None, None),
        Some(("buy oranges".to_string(), 100))
    );
}

#[test]
fn an_edits_chunk_is_read_from_that_edit() {
    let item = oranges_item();
    let edit = blurt::schema::records::Edit {
        id: 9,
        item_id: 1,
        text: "buy blood oranges".to_string(),
        edited_at: 200,
    };
    assert_eq!(
        blurt::rag::search::chunk_version(&item, Some(9), Some(edit)),
        Some(("buy blood oranges".to_string(), 200))
    );
}

#[test]
fn a_chunk_of_a_vanished_edit_is_skipped() {
    let item = oranges_item();
    assert_eq!(blurt::rag::search::chunk_version(&item, Some(9), None), None);
}

#[test]
fn a_blank_query_or_empty_page_fetches_no_vectors() {
    let mut options = SearchOptions::default();
    assert_eq!(vector_fetch_count("   ", &options), None);
    options.limit = 0;
    assert_eq!(vector_fetch_count("oranges", &options), None);
}

#[test]
fn the_vector_side_is_overfetched_past_the_page() {
    let mut options = SearchOptions::default();
    options.limit = 20;
    options.offset = 40;
    assert_eq!(vector_fetch_count("oranges", &options), Some(480));
    options.offset = usize::MAX;
    assert_eq!(vector_fetch_count("oranges", &options), Some(usize::MAX));
}

fn shopping_rows() -> Vec<blurt::schema::destinations::Destination> {
    let row = |id: u128, parent_id: Option<u128>, name: &str| blurt::schema::destinations::Destination {
        id,
        parent_id,
        name: name.to_string(),
        trigger: name.to_lowercase(),
        kind: blurt::schema::destinations::DestinationKind::List,
        is_system: false,
        is_sensitive: false,
        sort_order: 0,
        created_at: 0,
        deleted_at: None,
    };
    vec![row(10, None, "Shopping"), row(3, Some(10), "Produce")]
}

fn oranges_chunk(edit_id: Option<u128>) -> blurt::schema::records::Embedding {
    blurt::schema::records::Embedding {
        id: 50,
        item_id: 1,
        edit_id,
        vector_ref: "ref".to_string(),
        chunk_index: 0,
        chunk_start_offset: 4,
        chunk_end_offset: 11,
    }
}

#[test]
fn a_hit_is_placed_with_its_path_slice_and_scope_group() {
    let item = oranges_item();
    let mut options = SearchOptions::default();
    options.scope = Some(10);
    let hit = blurt::rag::search::place_hit(&item, &oranges_chunk(None), None, &shopping_rows(), &options, 200)
        .expect("an original capture inside an unbounded window is placed");

    assert_eq!(hit.chunk_text, "oranges");
    assert_eq!(hit.timestamp, 100);
    assert_eq!(hit.path.iter().map(|d| d.name.as_str()).collect::<Vec<_>>(), vec!["Shopping", "Produce"]);
    assert_eq!(hit.group, ScopeGroup::InScope);
}

#[test]
fn a_hit_outside_the_window_is_left_out() {
    let item = oranges_item();
    let mut options = SearchOptions::default();
    options.window = RetrievalWindow::Days(1);
    let now = 100 + 2 * MS_PER_DAY;
    assert_eq!(
        blurt::rag::search::place_hit(&item, &oranges_chunk(None), None, &shopping_rows(), &options, now),
        None
    );
}

#[test]
fn a_hit_of_a_vanished_edit_is_left_out() {
    let item = oranges_item();
    let options = SearchOptions::default();
    assert_eq!(
        blurt::rag::search::place_hit(&item, &oranges_chunk(Some(9)), None, &shopping_rows(), &options, 200),
        None
    );
}
