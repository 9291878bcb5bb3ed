//! Where the retrieval layer's files live.
use vstd::prelude::*;

use std::path::PathBuf;

verus! {

/// A filesystem path.
#[verifier::external_type_specification]
#[verifier::external_body]
pub struct ExPathBuf(PathBuf);

/// Where the vector store, the embedding model cache and the generative
/// model live.
#[derive(Debug)]
pub struct RagPaths {
    /// The vector store's directory, beside the database.
    pub vectors: PathBuf,
    /// Where the embedding model is looked up.
    pub embedding_cache: PathBuf,
    /// The generative model file.
    pub gguf: PathBuf,
}

} // verus!
