//! Captured items and their edits, as rows read from storage. Ids are the
//! 128-bit values of their UUIDs.
use vstd::prelude::*;

verus! {

/// One captured item. `current_text` starts as `original_text` and follows
/// the latest edit; `original_text` never changes.
#[derive(Debug, Clone, PartialEq, Eq)]
pub struct Item {
    pub id: u128,
    pub destination_id: u128,
    pub original_text: String,
    pub current_text: String,
    pub checked: Option<bool>,
    pub created_at: i64,
    pub deleted_at: Option<i64>,
}

/// One appended edit of an item.
#[derive(Debug, Clone, PartialEq, Eq)]
pub struct Edit {
    pub id: u128,
    pub item_id: u128,
    pub text: String,
    pub edited_at: i64,
}

/// One stored chunk of one indexed text version: where the chunk sits in
/// that version's text, and the key of its vector in the vector store.
#[derive(Debug, Clone, PartialEq, Eq)]
pub struct Embedding {
    pub id: u128,
    pub item_id: u128,
    /// Which version the chunk came from: `None` is the original capture.
    pub edit_id: Option<u128>,
    pub vector_ref: String,
    pub chunk_index: i64,
    pub chunk_start_offset: i64,
    pub chunk_end_offset: i64,
}

} // verus!
