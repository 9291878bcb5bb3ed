use blurt::rag::chunking::{chunk, Chunk, CHUNK_WORDS, OVERLAP_WORDS, STRIDE_WORDS};

fn words(count: usize) -> String {
    (0..count).map(|i| format!("w{i}")).collect::<Vec<_>>().join(" ")
}

fn word_count(text: &str) -> usize {
    text.split_whitespace().count()
}

fn slice_by_offsets(text: &str, chunk: &Chunk) -> String {
    text.chars()
        .skip(chunk.start_offset)
        .take(chunk.end_offset - chunk.start_offset)
        .collect()
}

#[test]
fn empty_text_produces_no_chunks() {
    assert!(chunk("").is_empty());
}

#[test]
fn whitespace_only_text_produces_no_chunks() {
    assert!(chunk("   \n\t  ").is_empty(), "there is nothing to embed");
}

#[test]
fn short_text_is_one_chunk_covering_all_of_it() {
    let chunks = chunk("buy tomatoes this week");
    assert_eq!(chunks.len(), 1);
    assert_eq!(chunks[0].text, "buy tomatoes this week");
    assert_eq!(chunks[0].index, 0);
    assert_eq!(chunks[0].start_offset, 0);
    assert_eq!(chunks[0].end_offset, 22);
}

#[test]
fn text_of_exactly_one_chunk_is_not_split() {
    let text = words(CHUNK_WORDS);
    let chunks = chunk(&text);
    assert_eq!(chunks.len(), 1, "an exact fit must not emit a duplicate tail chunk");
    assert_eq!(word_count(&chunks[0].text), CHUNK_WORDS);
}

#[test]
fn one_word_over_a_chunk_splits_into_two() {
    let text = words(CHUNK_WORDS + 1);
    let chunks = chunk(&text);
    assert_eq!(chunks.len(), 2);
}

#[test]
fn no_chunk_exceeds_the_word_budget() {
    let text = words(CHUNK_WORDS * 4 + 7);
    for c in chunk(&text) {
        assert!(word_count(&c.text) <= CHUNK_WORDS, "chunk {} is over the budget", c.index);
    }
}

#[test]
fn consecutive_chunks_overlap_inside_the_documented_band() {
    let text = words(CHUNK_WORDS * 3);
    let chunks = chunk(&text);
    assert!(chunks.len() >= 3, "expected several chunks, got {}", chunks.len());

    for pair in chunks.windows(2) {
        let (earlier, later) = (&pair[0], &pair[1]);
        assert!(later.start_offset < earlier.end_offset);

        let earlier_words: Vec<&str> = earlier.text.split_whitespace().collect();
        let later_words: Vec<&str> = later.text.split_whitespace().collect();
        let shared = earlier_words.iter().filter(|w| later_words.contains(w)).count();
        let ratio = shared as f32 / CHUNK_WORDS as f32;
        assert!((0.15..=0.20).contains(&ratio), "overlap of {shared} words ({ratio:.3}) is outside the band");
    }
}

#[test]
fn chunk_indexes_are_sequential_from_zero() {
    let text = words(CHUNK_WORDS * 3);
    for (position, c) in chunk(&text).iter().enumerate() {
        assert_eq!(c.index, position);
    }
}

#[test]
fn every_word_lands_in_at_least_one_chunk() {
    let total = CHUNK_WORDS * 2 + 13;
    let text = words(total);
    let chunks = chunk(&text);

    for i in 0..total {
        let word = format!("w{i}");
        assert!(
            chunks.iter().any(|c| c.text.split_whitespace().any(|w| w == word)),
            "{word} fell into the gap between chunks"
        );
    }
}

#[test]
fn offsets_slice_back_to_the_chunks_own_text() {
    let text = words(CHUNK_WORDS * 2 + 5);
    for c in chunk(&text) {
        assert_eq!(slice_by_offsets(&text, &c), c.text, "chunk {} offsets do not match", c.index);
    }
}

#[test]
fn offsets_count_characters_not_bytes() {
    let text = "café naïve résumé";
    let chunks = chunk(text);
    assert_eq!(chunks.len(), 1);
    assert_eq!(chunks[0].start_offset, 0);
    assert_eq!(chunks[0].end_offset, 17, "17 characters, though more than 17 bytes");
    assert_eq!(slice_by_offsets(text, &chunks[0]), text);
}

#[test]
fn surrounding_whitespace_is_not_part_of_a_chunk() {
    let chunks = chunk("\n  buy milk  \n");
    assert_eq!(chunks.len(), 1);
    assert_eq!(chunks[0].text, "buy milk");
    assert_eq!(chunks[0].start_offset, 3);
    assert_eq!(chunks[0].end_offset, 11);
}

#[test]
fn internal_spacing_and_punctuation_are_preserved_verbatim() {
    let text = "Call Dr. Ada  —  ask about the 3rd of May.";
    let chunks = chunk(text);
    assert_eq!(chunks.len(), 1);
    assert_eq!(chunks[0].text, text, "chunks are slices of the original");
}

#[test]
fn a_single_word_is_a_single_chunk() {
    let chunks = chunk("tomatoes");
    assert_eq!(chunks.len(), 1);
    assert_eq!(chunks[0].text, "tomatoes");
    assert_eq!((chunks[0].start_offset, chunks[0].end_offset), (0, 8));
}

#[test]
fn the_final_chunk_is_never_a_degenerate_sliver() {
    let text = words(CHUNK_WORDS + STRIDE_WORDS + 1);
    let chunks = chunk(&text);
    let last = chunks.last().expect("at least one chunk");
    assert!(word_count(&last.text) > OVERLAP_WORDS, "final chunk has only {} words", word_count(&last.text));
}

#[test]
fn chunk_boundaries_follow_the_stride() {
    let text = words(400);
    let chunks = chunk(&text);
    assert_eq!(chunks.len(), 3);
    assert!(chunks[1].text.starts_with("w150 "));
    assert!(chunks[2].text.starts_with("w300 "));
    assert!(chunks[2].text.ends_with("w399"));
}

#[test]
fn chunk_count_follows_the_closed_formula() {
    for n in [0usize, 1, 179, 180, 181, 330, 331, 480, 481, 1000] {
        let expected = if n == 0 { 0 } else { 1 + (n.saturating_sub(CHUNK_WORDS) + STRIDE_WORDS - 1) / STRIDE_WORDS };
        assert_eq!(chunk(&words(n)).len(), expected, "{n} words");
    }
}
