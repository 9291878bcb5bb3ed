//! Errors of the retrieval layer.
use vstd::prelude::*;

use vstd::string::StringExecFns;

use crate::app::ids::{uuid_string, uuid_text};
use crate::schema::error::SchemaError;

verus! {

/// Everything that can go wrong in the memory layer.
#[derive(Debug, Clone, PartialEq, Eq)]
pub enum RagError {
    /// A storage error.
    Schema(SchemaError),
    /// The embedding model could not be loaded.
    EmbeddingModel(String),
    /// The embedding model loaded but inference failed.
    Embedding(String),
    /// The vector store could not be opened, written or queried.
    VectorStore(String),
    /// An edit id that no edit row matches.
    UnknownEdit(u128),
    /// An edit that belongs to another item than the one being indexed.
    EditItemMismatch { edit_id: u128, item_id: u128, actual_item_id: u128 },
    /// The generative model could not be loaded.
    ModelLoad(String),
    /// The generative model loaded but generation failed.
    Generation(String),
}

impl RagError {
    /// The error as it reads to a user; ids read as hyphenated UUID text.
    pub open spec fn message_spec(&self) -> Seq<char> {
        match self {
            RagError::Schema(e) => "storage error: "@ + e.message_spec(),
            RagError::EmbeddingModel(m) => "could not load the embedding model: "@ + m@,
            RagError::Embedding(m) => "embedding failed: "@ + m@,
            RagError::VectorStore(m) => "vector store error: "@ + m@,
            RagError::UnknownEdit(id) => "no such edit: "@ + uuid_text(*id),
            RagError::EditItemMismatch { edit_id, item_id, actual_item_id } => "edit "@ + uuid_text(
                *edit_id,
            ) + " belongs to item "@ + uuid_text(*actual_item_id) + ", not "@ + uuid_text(*item_id),
            RagError::ModelLoad(m) => "could not load the generative model: "@ + m@,
            RagError::Generation(m) => "generation failed: "@ + m@,
        }
    }

    /// The error as it reads to a user.
    pub fn message(&self) -> (s: String)
        ensures
            s@ == self.message_spec(),
    {
        let mut s;
        match self {
            RagError::Schema(e) => {
                s = String::from_str("storage error: ");
                s.append(e.message().as_str());
            },
            RagError::EmbeddingModel(m) => {
                s = String::from_str("could not load the embedding model: ");
                s.append(m.as_str());
            },
            RagError::Embedding(m) => {
                s = String::from_str("embedding failed: ");
                s.append(m.as_str());
            },
            RagError::VectorStore(m) => {
                s = String::from_str("vector store error: ");
                s.append(m.as_str());
            },
            RagError::UnknownEdit(id) => {
                s = String::from_str("no such edit: ");
                s.append(uuid_string(*id).as_str());
            },
            RagError::EditItemMismatch { edit_id, item_id, actual_item_id } => {
                s = String::from_str("edit ");
                s.append(uuid_string(*edit_id).as_str());
                s.append(" belongs to item ");
                s.append(uuid_string(*actual_item_id).as_str());
                s.append(", not ");
                s.append(uuid_string(*item_id).as_str());
            },
            RagError::ModelLoad(m) => {
                s = String::from_str("could not load the generative model: ");
                s.append(m.as_str());
            },
            RagError::Generation(m) => {
                s = String::from_str("generation failed: ");
                s.append(m.as_str());
            },
        }
        s
    }
}

} // verus!
