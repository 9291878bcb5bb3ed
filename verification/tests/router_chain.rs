use blurt::router::chain::{parse, ParsedCapture};

fn chain(body: &str, segments: &[&str]) -> ParsedCapture {
    ParsedCapture::Chain {
        body: body.to_string(),
        segments: segments.iter().map(|s| s.to_string()).collect(),
    }
}

#[test]
fn text_with_no_at_is_plain() {
    assert_eq!(
        parse("buy tomatoes this week"),
        ParsedCapture::PlainText("buy tomatoes this week".to_string())
    );
}

#[test]
fn empty_input_is_plain() {
    assert_eq!(parse(""), ParsedCapture::PlainText(String::new()));
}

#[test]
fn a_trailing_at_segment_opens_a_chain() {
    assert_eq!(parse("buy tomatoes @weekly"), chain("buy tomatoes", &["weekly"]));
}

#[test]
fn a_multi_segment_chain_splits_on_each_at() {
    assert_eq!(
        parse("buy tomatoes @shopping@grocery"),
        chain("buy tomatoes", &["shopping", "grocery"]),
        "each segment re-scopes the picker one level deeper"
    );
}

#[test]
fn at_followed_by_a_space_is_inert() {
    assert_eq!(
        parse("meet Alex @ 9pm"),
        ParsedCapture::PlainText("meet Alex @ 9pm".to_string()),
        "the picker never engages on '@ '"
    );
}

#[test]
fn a_leading_at_stays_plain_text_because_chains_are_trailing_only() {
    assert_eq!(
        parse("@weekly buy tomatoes"),
        ParsedCapture::PlainText("@weekly buy tomatoes".to_string())
    );
}

#[test]
fn an_at_not_on_a_word_boundary_stays_plain_text() {
    assert_eq!(
        parse("email bob@example.com"),
        ParsedCapture::PlainText("email bob@example.com".to_string()),
        "an address is not a destination chain"
    );
}

#[test]
fn a_bare_trailing_at_is_plain_text() {
    assert_eq!(
        parse("buy tomatoes @"),
        ParsedCapture::PlainText("buy tomatoes @".to_string()),
        "nothing follows the '@', so no segment has been typed yet"
    );
}

#[test]
fn a_doubled_at_is_plain_text() {
    assert_eq!(
        parse("buy tomatoes @@weekly"),
        ParsedCapture::PlainText("buy tomatoes @@weekly".to_string()),
        "an empty segment is not a name"
    );
}

#[test]
fn a_chain_with_no_body_still_parses_as_a_chain() {
    assert_eq!(parse("@weekly"), chain("", &["weekly"]));
}

#[test]
fn trailing_whitespace_does_not_dismiss_a_chain() {
    assert_eq!(parse("buy tomatoes @weekly  "), chain("buy tomatoes", &["weekly"]));
}

#[test]
fn content_typed_past_the_chain_dismisses_it() {
    assert_eq!(
        parse("buy tomatoes @weekly and bread"),
        ParsedCapture::PlainText("buy tomatoes @weekly and bread".to_string()),
        "the chain is no longer trailing"
    );
}

#[test]
fn segment_case_is_preserved_for_the_resolver_to_fold() {
    assert_eq!(parse("buy tomatoes @Weekly"), chain("buy tomatoes", &["Weekly"]));
}

#[test]
fn a_later_at_opens_the_chain_when_an_earlier_one_cannot() {
    assert_eq!(parse("a @ b @x"), chain("a @ b", &["x"]));
    assert_eq!(parse("x\u{3000}@y"), chain("x", &["y"]));
}
