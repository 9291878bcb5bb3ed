//! Where the generative model is loaded from.
//!
//! The loader only records the model file's path; nothing is read until a
//! load is asked for, so constructing one is free and can happen at
//! startup.
use vstd::prelude::*;

use vstd::string::StringExecFns;

use std::path::{Path, PathBuf};

use crate::rag::error::RagError;
use crate::text::{decimal_spec, push_decimal};

verus! {

/// Context window of the generative model, in tokens: room for the
/// retrieved-context budget, the answer and the instructions.
pub const CONTEXT_TOKENS: u32 = 4096;

/// A borrowed filesystem path.
#[verifier::external_type_specification]
#[verifier::external_body]
pub struct ExPath(Path);

/// Loads the bundled GGUF model on demand.
pub struct LlamaLoader {
    model_path: PathBuf,
}

/// The path that `PathBuf::as_path` borrows out of a path buffer. `as_path`
/// only reborrows the buffer's contents, so the same buffer always gives the
/// same path.
pub uninterp spec fn borrowed_path(p: &PathBuf) -> &Path;

/// `PathBuf::as_path`: the buffer's path, borrowed; its result is named by
/// `borrowed_path` of the buffer.
#[verifier::external_body]
fn path_of(p: &PathBuf) -> (r: &Path)
    ensures
        r == borrowed_path(p),
{
    p.as_path()
}

impl LlamaLoader {
    /// The path a loader was made with.
    pub closed spec fn path_spec(&self) -> PathBuf {
        self.model_path
    }

    /// A loader for the model file at `model_path`.
    pub fn new(model_path: PathBuf) -> (l: LlamaLoader)
        ensures
            l.path_spec() == model_path,
    {
        LlamaLoader { model_path }
    }

    /// The model file this loader reads: the path it was made with.
    pub fn model_path(&self) -> (r: &Path)
        ensures
            r == borrowed_path(&self.path_spec()),
    {
        path_of(&self.model_path)
    }
}

/// Whether a prompt of `prompt_tokens` tokens leaves room for `max_tokens`
/// more in the context window. A prompt that does not fit is refused rather
/// than truncated: a grounded answer built from a half-read prompt is worse
/// than an error, because nothing downstream could tell.
pub fn check_prompt_fits(prompt_tokens: usize, max_tokens: usize) -> (r: Result<(), RagError>)
    requires
        prompt_tokens + max_tokens <= usize::MAX,
    ensures
        r is Ok <==> prompt_tokens + max_tokens <= CONTEXT_TOKENS,
        !(r is Ok) ==> (r matches Err(RagError::Generation(m)) && m@ == "prompt is "@
            + decimal_spec(prompt_tokens as nat) + " tokens and "@ + decimal_spec(max_tokens as nat)
            + " were requested, over the "@ + decimal_spec(CONTEXT_TOKENS as nat)
            + "-token context"@),
{
    if prompt_tokens + max_tokens <= CONTEXT_TOKENS as usize {
        return Ok(());
    }
    let mut m = String::from_str("prompt is ");
    push_decimal(&mut m, prompt_tokens as u128);
    m.append(" tokens and ");
    push_decimal(&mut m, max_tokens as u128);
    m.append(" were requested, over the ");
    push_decimal(&mut m, CONTEXT_TOKENS as u128);
    m.append("-token context");
    proof {
        reveal_strlit("prompt is ");
        reveal_strlit(" tokens and ");
        reveal_strlit(" were requested, over the ");
        reveal_strlit("-token context");
    }
    Err(RagError::Generation(m))
}

} // verus!
