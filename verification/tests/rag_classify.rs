use blurt::rag::classify::{classify, InputKind};

#[test]
fn a_trailing_question_mark_is_the_strongest_signal() {
    assert_eq!(classify("buy milk?"), InputKind::Question);
    assert_eq!(classify("oranges?"), InputKind::Question);
}

#[test]
fn an_interrogative_opening_is_a_question_without_punctuation() {
    assert_eq!(classify("what did I say about oranges"), InputKind::Question);
    assert_eq!(classify("where is the spare key"), InputKind::Question);
    assert_eq!(classify("why did the build fail"), InputKind::Question);
}

#[test]
fn an_inverted_auxiliary_opening_is_a_question() {
    assert_eq!(classify("did I buy milk"), InputKind::Question);
    assert_eq!(classify("is the store open on Sunday"), InputKind::Question);
    assert_eq!(classify("should I call Dana back"), InputKind::Question);
}

#[test]
fn a_plain_capture_is_a_statement() {
    assert_eq!(classify("buy milk"), InputKind::Statement);
    assert_eq!(classify("meeting at 3pm with Dana"), InputKind::Statement);
    assert_eq!(classify("the build failed again"), InputKind::Statement);
}

#[test]
fn classification_ignores_case_and_surrounding_punctuation() {
    assert_eq!(classify("  WHAT DID I SAY?  "), InputKind::Question);
    assert_eq!(classify("\"did I buy milk\""), InputKind::Question);
    assert_eq!(classify("   Is the store open"), InputKind::Question);
}

#[test]
fn an_interrogative_word_later_in_the_sentence_does_not_make_a_question() {
    assert_eq!(
        classify("remember what I said about oranges"),
        InputKind::Statement
    );
    assert_eq!(classify("ask Dana why the build failed"), InputKind::Statement);
}

#[test]
fn matching_is_whole_word_not_prefix() {
    assert_eq!(classify("isolate the failing test"), InputKind::Statement);
    assert_eq!(classify("candid photo of the dog"), InputKind::Statement);
    assert_eq!(classify("willow branch for the vase"), InputKind::Statement);
    assert_eq!(classify("doable before Friday"), InputKind::Statement);
}

#[test]
fn contractions_are_recognized_since_voice_capture_has_no_punctuation() {
    assert_eq!(classify("what's for dinner"), InputKind::Question);
    assert_eq!(classify("didn't I buy milk already"), InputKind::Question);
    assert_eq!(classify("where's the spare key"), InputKind::Question);
    assert_eq!(classify("what\u{2019}s for dinner"), InputKind::Question);
}

#[test]
fn negative_contractions_reduce_to_their_auxiliary() {
    assert_eq!(classify("didn't I buy milk already"), InputKind::Question);
    assert_eq!(classify("isn't the store open today"), InputKind::Question);
    assert_eq!(classify("doesn't Dana have the key"), InputKind::Question);
    assert_eq!(classify("couldn't we just walk"), InputKind::Question);
    assert_eq!(classify("can't I bring the dog"), InputKind::Question);
}

#[test]
fn stripping_the_negation_does_not_invent_questions() {
    assert_eq!(classify("man the grill at six"), InputKind::Statement);
    assert_eq!(classify("in the morning before work"), InputKind::Statement);
    assert_eq!(classify("van needs new tyres"), InputKind::Statement);
}

#[test]
fn content_free_input_is_a_statement() {
    assert_eq!(classify(""), InputKind::Statement);
    assert_eq!(classify("   "), InputKind::Statement);
    assert_eq!(classify("?"), InputKind::Statement);
}

#[test]
fn known_false_positives_are_accepted_by_design() {
    assert_eq!(classify("what a day"), InputKind::Question);
    assert_eq!(classify("how to reset the router"), InputKind::Question);
    assert_eq!(classify("can of paint for the shed"), InputKind::Question);
}

#[test]
fn a_trailing_question_mark_wins_over_a_statement_opening() {
    assert_eq!(classify("buy milk. did I get eggs?"), InputKind::Question);
}

#[test]
fn a_bare_question_word_after_edge_punctuation_still_counts() {
    assert_eq!(classify("(why) not"), InputKind::Question);
    assert_eq!(classify("...how"), InputKind::Question);
}

#[test]
fn a_trailing_question_mark_needs_an_alphanumeric_opening() {
    assert_eq!(classify("?? ?"), InputKind::Statement);
    assert_eq!(classify("- milk?"), InputKind::Statement);
}

#[test]
fn an_n_stripped_word_must_itself_be_listed() {
    assert_eq!(classify("wasn bad"), InputKind::Question);
    assert_eq!(classify("whon"), InputKind::Question);
    assert_eq!(classify("town hall"), InputKind::Statement);
}
