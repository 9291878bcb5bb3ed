//! The decisions of one indexing pass.
//!
//! A pass reads the version to index, chunks and embeds it, then stores the
//! chunk rows and tags after asking once more whether the item may still be
//! indexed. The storage reads and writes stand outside the library; what
//! they are asked and what the pass answers are decided here.
use vstd::prelude::*;

use crate::rag::error::RagError;
use vstd::string::StringExecFns;

use crate::rag::chunking::Chunk;
use crate::schema::records::{Edit, Embedding};
use crate::text::{decimal_spec, push_decimal};

verus! {

/// What one pass did.
#[derive(Debug, Clone, Copy, PartialEq, Eq, Structural)]
pub enum IndexOutcome {
    Indexed { chunks: usize, keywords: usize },
    /// Nothing was written: the item is sensitive, tombstoned, or in a
    /// tombstoned destination. None of these is an error.
    Skipped,
}

/// The answer of a pass whose vectors are written, given how many chunk rows
/// and tags it produced and whether the item may still be indexed when they
/// are about to be stored.
///
/// A pass with no rows stored nothing and answers so without asking about
/// eligibility; one whose item turned ineligible meanwhile is skipped, and
/// its rows are not stored. Otherwise the rows and tags are stored and
/// counted.
pub fn commit_outcome(row_count: usize, tag_count: usize, still_indexable: bool) -> (outcome:
    IndexOutcome)
    ensures
        row_count == 0 ==> outcome == (IndexOutcome::Indexed { chunks: 0, keywords: 0 }),
        row_count > 0 && !still_indexable ==> outcome == IndexOutcome::Skipped,
        row_count > 0 && still_indexable ==> outcome == (IndexOutcome::Indexed {
            chunks: row_count,
            keywords: tag_count,
        }),
{
    if row_count == 0 {
        IndexOutcome::Indexed { chunks: 0, keywords: 0 }
    } else if !still_indexable {
        IndexOutcome::Skipped
    } else {
        IndexOutcome::Indexed { chunks: row_count, keywords: tag_count }
    }
}

/// The text of the edit selected for indexing under `item_id`, given what
/// looking up `edit_id` found.
///
/// An edit id that matches no edit is an error, not a skip; an edit of
/// another item is refused, since indexing it would attribute one item's
/// text and offsets to another.
pub fn edit_text_for_item(item_id: u128, edit_id: u128, found: Option<Edit>) -> (r: Result<
    String,
    RagError,
>)
    ensures
        found is None ==> r == Err::<String, RagError>(RagError::UnknownEdit(edit_id)),
        found is Some && found->0.item_id != item_id ==> r == Err::<String, RagError>(
            RagError::EditItemMismatch { edit_id, item_id, actual_item_id: found->0.item_id },
        ),
        found is Some && found->0.item_id == item_id ==> (r matches Ok(t) && t@ == found->0.text@),
{
    match found {
        None => Err(RagError::UnknownEdit(edit_id)),
        Some(edit) => {
            if edit.item_id != item_id {
                Err(RagError::EditItemMismatch { edit_id, item_id, actual_item_id: edit.item_id })
            } else {
                Ok(edit.text)
            }
        },
    }
}

/// Refuses an embedding batch that does not hold one vector per chunk.
pub fn check_vector_count(chunk_count: usize, vector_count: usize) -> (r: Result<(), RagError>)
    ensures
        r is Ok <==> chunk_count == vector_count,
        chunk_count != vector_count ==> (r matches Err(RagError::Embedding(m)) && m@ == "expected "@
            + decimal_spec(chunk_count as nat) + " vectors for "@ + decimal_spec(chunk_count as nat)
            + " chunks, got "@ + decimal_spec(vector_count as nat)),
{
    if chunk_count == vector_count {
        return Ok(());
    }
    let mut m = String::from_str("expected ");
    push_decimal(&mut m, chunk_count as u128);
    m.append(" vectors for ");
    push_decimal(&mut m, chunk_count as u128);
    m.append(" chunks, got ");
    push_decimal(&mut m, vector_count as u128);
    proof {
        reveal_strlit("expected ");
        reveal_strlit(" vectors for ");
        reveal_strlit(" chunks, got ");
    }
    Err(RagError::Embedding(m))
}

/// The chunk rows of one pass over version `edit_id` of item `item_id`: one
/// per chunk, in order, each with its own row id and vector key.
pub fn chunk_rows(
    item_id: u128,
    edit_id: Option<u128>,
    chunks: &Vec<Chunk>,
    row_ids: &Vec<u128>,
    vector_refs: &Vec<String>,
) -> (rows: Vec<Embedding>)
    requires
        row_ids@.len() == chunks@.len(),
        vector_refs@.len() == chunks@.len(),
    ensures
        rows@.len() == chunks@.len(),
        forall|i: int|
            0 <= i < rows@.len() ==> {
                let r = #[trigger] rows@[i];
                &&& r.id == row_ids@[i]
                &&& r.item_id == item_id
                &&& r.edit_id == edit_id
                &&& r.vector_ref@ == vector_refs@[i]@
                &&& r.chunk_index == chunks@[i].index as i64
                &&& r.chunk_start_offset == chunks@[i].start_offset as i64
                &&& r.chunk_end_offset == chunks@[i].end_offset as i64
            },
{
    let mut rows: Vec<Embedding> = Vec::new();
    let mut i: usize = 0;
    while i < chunks.len()
        invariant
            i <= chunks@.len(),
            row_ids@.len() == chunks@.len(),
            vector_refs@.len() == chunks@.len(),
            rows@.len() == i,
            forall|k: int|
                0 <= k < i ==> {
                    let r = #[trigger] rows@[k];
                    &&& r.id == row_ids@[k]
                    &&& r.item_id == item_id
                    &&& r.edit_id == edit_id
                    &&& r.vector_ref@ == vector_refs@[k]@
                    &&& r.chunk_index == chunks@[k].index as i64
                    &&& r.chunk_start_offset == chunks@[k].start_offset as i64
                    &&& r.chunk_end_offset == chunks@[k].end_offset as i64
                },
        decreases chunks@.len() - i,
    {
        let c = &chunks[i];
        let vector_ref = String::from_str(vector_refs[i].as_str());
        rows.push(
            Embedding {
                id: row_ids[i],
                item_id,
                edit_id,
                vector_ref,
                chunk_index: c.index as i64,
                chunk_start_offset: c.start_offset as i64,
                chunk_end_offset: c.end_offset as i64,
            },
        );
        i += 1;
    }
    rows
}

} // verus!
