use blurt::router::chain::{parse, ParsedCapture};
use blurt::router::voice::{normalize_spoken_at, SpokenAt};

#[test]
fn a_transcript_with_no_at_is_returned_unchanged() {
    let out = normalize_spoken_at("buy tomatoes this week");
    assert_eq!(out.text, "buy tomatoes this week");
    assert!(out.replacements.is_empty());
}

#[test]
fn a_standalone_at_becomes_an_at_symbol_closed_up_to_the_next_word() {
    let out = normalize_spoken_at("buy tomatoes at weekly");
    assert_eq!(out.text, "buy tomatoes @weekly");
    assert_eq!(out.replacements.len(), 1);
}

#[test]
fn at_inside_another_word_is_left_alone() {
    let out = normalize_spoken_at("attempt to chat with Nat about that");
    assert_eq!(out.text, "attempt to chat with Nat about that");
    assert!(out.replacements.is_empty(), "only a standalone word 'at' is a separator");
}

#[test]
fn voice_is_case_insensitive() {
    let out = normalize_spoken_at("Buy milk At shopping");
    assert_eq!(out.text, "Buy milk @shopping");
}

#[test]
fn records_the_replaced_text_so_a_false_positive_can_be_dismissed() {
    let out = normalize_spoken_at("meet Alex at 9pm");
    assert_eq!(out.text, "meet Alex @9pm");
    assert_eq!(
        out.replacements,
        vec![SpokenAt { offset: 10, original: "at ".to_string() }],
        "the accepted false positive, made reversible"
    );
    assert_eq!(&out.text[10..11], "@", "offset points at the inserted symbol");
}

#[test]
fn consecutive_ats_build_one_multi_segment_chain() {
    let out = normalize_spoken_at("buy milk at shopping at grocery");
    assert_eq!(out.text, "buy milk @shopping@grocery", "one chain, an 'at' between each segment");
    assert_eq!(out.replacements.len(), 2);
}

#[test]
fn multi_word_text_between_two_ats_does_not_continue_the_chain() {
    let out = normalize_spoken_at("buy at shopping some words at grocery");
    assert_eq!(out.text, "buy @shopping some words @grocery");
}

#[test]
fn a_trailing_at_becomes_a_bare_symbol() {
    let out = normalize_spoken_at("remind me at");
    assert_eq!(out.text, "remind me @");
    assert_eq!(out.replacements, vec![SpokenAt { offset: 10, original: "at".to_string() }]);
}

#[test]
fn normalized_output_feeds_the_typed_parser_with_no_extra_logic() {
    let out = normalize_spoken_at("buy tomatoes at shopping at grocery");
    assert_eq!(
        parse(&out.text),
        ParsedCapture::Chain {
            body: "buy tomatoes".to_string(),
            segments: vec!["shopping".to_string(), "grocery".to_string()],
        }
    );
}

#[test]
fn a_dismissed_replacement_can_be_restored_verbatim() {
    let out = normalize_spoken_at("meet Alex at 9pm");
    let replacement = &out.replacements[0];

    let mut restored = out.text.clone();
    restored.replace_range(replacement.offset..replacement.offset + 1, &replacement.original);
    assert_eq!(restored, "meet Alex at 9pm");
}

#[test]
fn offsets_are_counted_in_bytes_after_multibyte_text() {
    let out = normalize_spoken_at("café at noon");
    assert_eq!(out.text, "café @noon");
    assert_eq!(out.replacements, vec![SpokenAt { offset: 6, original: "at ".to_string() }]);
    assert_eq!(&out.text[6..7], "@");
}

#[test]
fn an_at_next_to_punctuation_is_still_standalone() {
    let out = normalize_spoken_at("(at) home");
    assert_eq!(out.text, "(@) home");
}

#[test]
fn every_rewrite_replaces_an_at_and_its_whitespace_in_order() {
    let transcript = "meet AT   9pm then At shopping at  grocery";
    let r = normalize_spoken_at(transcript);
    assert_eq!(r.replacements.len(), 3);
    for (i, x) in r.replacements.iter().enumerate() {
        assert_eq!(r.text.as_bytes()[x.offset], b'@');
        assert!(x.original[..2].eq_ignore_ascii_case("at"));
        assert!(x.original[2..].chars().all(char::is_whitespace));
        if i > 0 {
            assert!(r.replacements[i - 1].offset < x.offset);
        }
    }
    assert!(r.text.len() + r.replacements.len() <= transcript.len());
    let plain = normalize_spoken_at("nothing to see here");
    assert!(plain.replacements.is_empty());
    assert_eq!(plain.text, "nothing to see here");
}
