//! Retrieval-side logic: chunking, question detection, keyword selection,
//! query terms and time windows, the decisions of an indexing pass, grounded
//! answers from retrieved notes, and the generative-model lifecycle.
pub mod chunking;
pub mod classify;
pub mod error;
pub mod indexing;
pub mod keywords;
pub mod llama;
pub mod model_manager;
pub mod search;
pub mod synthesis;
