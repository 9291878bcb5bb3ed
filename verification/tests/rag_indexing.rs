use blurt::rag::error::RagError;
use blurt::rag::indexing::{commit_outcome, edit_text_for_item, IndexOutcome};
use blurt::schema::records::Edit;

#[test]
fn a_pass_with_no_rows_indexes_nothing_without_asking_eligibility() {
    assert_eq!(commit_outcome(0, 0, false), IndexOutcome::Indexed { chunks: 0, keywords: 0 });
    assert_eq!(commit_outcome(0, 3, true), IndexOutcome::Indexed { chunks: 0, keywords: 0 });
}

#[test]
fn a_pass_whose_item_turned_ineligible_is_skipped() {
    assert_eq!(commit_outcome(2, 4, false), IndexOutcome::Skipped);
}

#[test]
fn a_still_eligible_pass_counts_rows_and_tags() {
    assert_eq!(commit_outcome(2, 4, true), IndexOutcome::Indexed { chunks: 2, keywords: 4 });
}

#[test]
fn an_unknown_edit_is_an_error_not_a_skip() {
    assert_eq!(edit_text_for_item(1, 9, None), Err(RagError::UnknownEdit(9)));
}

#[test]
fn an_edit_of_another_item_is_refused() {
    let theirs = Edit { id: 9, item_id: 2, text: "buy sourdough".to_string(), edited_at: 0 };
    assert_eq!(
        edit_text_for_item(1, 9, Some(theirs)),
        Err(RagError::EditItemMismatch { edit_id: 9, item_id: 1, actual_item_id: 2 })
    );
}

#[test]
fn an_edit_of_this_item_gives_its_text() {
    let mine = Edit { id: 9, item_id: 1, text: "oat milk, 2 cartons".to_string(), edited_at: 5 };
    assert_eq!(edit_text_for_item(1, 9, Some(mine)), Ok("oat milk, 2 cartons".to_string()));
}

#[test]
fn one_vector_per_chunk_is_accepted() {
    assert_eq!(blurt::rag::indexing::check_vector_count(3, 3), Ok(()));
}

#[test]
fn a_short_vector_batch_is_an_embedding_error() {
    assert_eq!(
        blurt::rag::indexing::check_vector_count(3, 2),
        Err(RagError::Embedding("expected 3 vectors for 3 chunks, got 2".to_string()))
    );
}

#[test]
fn chunk_rows_carry_each_chunks_offsets_and_keys() {
    let chunks = blurt::rag::chunking::chunk("buy oat milk");
    let ids: Vec<u128> = (0..chunks.len() as u128).map(|i| 100 + i).collect();
    let refs: Vec<String> = (0..chunks.len()).map(|i| format!("ref-{i}")).collect();

    let rows = blurt::rag::indexing::chunk_rows(7, Some(9), &chunks, &ids, &refs);

    assert_eq!(rows.len(), chunks.len());
    assert_eq!(rows[0].id, 100);
    assert_eq!(rows[0].item_id, 7);
    assert_eq!(rows[0].edit_id, Some(9));
    assert_eq!(rows[0].vector_ref, "ref-0");
    assert_eq!(rows[0].chunk_index, 0);
    assert_eq!(rows[0].chunk_start_offset, chunks[0].start_offset as i64);
    assert_eq!(rows[0].chunk_end_offset, chunks[0].end_offset as i64);
}

#[test]
fn rag_errors_read_as_sentences() {
    assert_eq!(
        RagError::VectorStore("table missing".to_string()).message(),
        "vector store error: table missing"
    );
    assert_eq!(
        RagError::UnknownEdit(0x0123_4567_89ab_cdef_0123_4567_89ab_cdef).message(),
        "no such edit: 01234567-89ab-cdef-0123-456789abcdef"
    );
    assert_eq!(
        RagError::EditItemMismatch { edit_id: 1, item_id: 2, actual_item_id: 3 }.message(),
        "edit 00000000-0000-0000-0000-000000000001 belongs to item 00000000-0000-0000-0000-000000000003, not 00000000-0000-0000-0000-000000000002"
    );
    assert_eq!(
        RagError::Schema(blurt::schema::error::SchemaError::DatabaseLocked).message(),
        "storage error: database could not be decrypted with the supplied key"
    );
}
