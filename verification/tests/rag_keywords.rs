use blurt::rag::keywords::{candidate_ceiling, MAX_KEYWORDS, NGRAM_SIZE};

#[test]
fn the_ceiling_never_drops_below_the_number_of_keywords_wanted() {
    assert!(candidate_ceiling("") >= MAX_KEYWORDS);
    assert!(candidate_ceiling("one") >= MAX_KEYWORDS);
}

#[test]
fn the_ceiling_counts_every_ngram_a_long_text_could_hold() {
    let text = "one two three four five six seven eight nine ten eleven";
    assert_eq!(candidate_ceiling(text), 11 * NGRAM_SIZE);
    assert_eq!(candidate_ceiling("  a  b c "), MAX_KEYWORDS);
}

#[test]
fn kept_positions_keep_the_first_of_each_text() {
    let ranked: Vec<String> = ["billing", "migration", "billing", "service", "migration"]
        .iter()
        .map(|s| s.to_string())
        .collect();
    assert_eq!(blurt::rag::keywords::kept_positions(&ranked), vec![0, 1, 3]);
}

#[test]
fn kept_positions_stop_at_the_cap() {
    let ranked: Vec<String> = (0..25).map(|i| format!("term{i}")).collect();
    let kept = blurt::rag::keywords::kept_positions(&ranked);
    assert_eq!(kept.len(), blurt::rag::keywords::MAX_KEYWORDS);
    assert_eq!(kept, (0..10).collect::<Vec<usize>>());
}

#[test]
fn kept_positions_of_nothing_is_nothing() {
    assert!(blurt::rag::keywords::kept_positions(&Vec::new()).is_empty());
}
