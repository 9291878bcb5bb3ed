//! The generative model's lifecycle: load on a question, generate, unload
//! before returning, every time. It is not a cache: no model stays resident
//! between questions, and a failed load or generation leaves nothing loaded.
use vstd::prelude::*;

use crate::rag::error::RagError;

verus! {

/// A loaded generative model, ready to answer one prompt.
pub trait TextGenerator: Sized {
    /// Whether `r` is an answer this model may give to `prompt` under a
    /// limit of `max_tokens`. What a model answers is its implementor's to
    /// say, and a sampling model may answer the same prompt differently each
    /// time, so this is a relation and not a function. An implementation
    /// that does not override it leaves every answer possible; code generic
    /// over the model sees only the relation, never this default.
    closed spec fn answers(&self, prompt: Seq<char>, max_tokens: usize, r: Result<String, RagError>) -> bool {
        true
    }

    /// Produces text for `prompt`, stopping at `max_tokens`.
    fn generate(&mut self, prompt: &str, max_tokens: usize) -> (r: Result<String, RagError>)
        ensures
            old(self).answers(prompt@, max_tokens, r),
    ;
}

/// Loads a generative model on demand, as often as asked.
pub trait ModelLoader: Sized {
    /// The model a successful load yields.
    type Generator: TextGenerator;

    /// Whether `r` is an outcome one load may have: a model, or the error
    /// that stopped it. A load reads a file, so two loads need not agree.
    /// An implementation that does not override it leaves every outcome
    /// possible; code generic over the loader sees only the relation.
    closed spec fn yields(&self, r: Result<Self::Generator, RagError>) -> bool {
        true
    }

    /// Loads the model.
    fn load(&self) -> (r: Result<Self::Generator, RagError>)
        ensures
            self.yields(r),
    ;
}

/// Owns the load/unload state of the generative model.
pub struct ModelManager<L: ModelLoader> {
    loader: L,
    /// `Some` only during one [`ModelManager::generate`] call.
    loaded: Option<L::Generator>,
}

impl<L: ModelLoader> ModelManager<L> {
    /// Whether a model is resident.
    pub closed spec fn resident(&self) -> bool {
        self.loaded is Some
    }

    /// The loader this manager loads its model with.
    pub closed spec fn loader_spec(&self) -> L {
        self.loader
    }

    /// Whether `r` is what one answering call may return with this loader:
    /// one load, whose error is returned as is, or else the loaded model's
    /// own answer to `prompt` under `max_tokens`.
    pub open spec fn one_call_answer(&self, prompt: Seq<char>, max_tokens: usize, r: Result<String, RagError>) -> bool {
        exists|lr: Result<L::Generator, RagError>|
            #[trigger] self.loader_spec().yields(lr) && match lr {
                Ok(g) => g.answers(prompt, max_tokens, r),
                Err(e) => r == Err::<String, RagError>(e),
            }
    }

    /// A manager with nothing loaded.
    pub fn new(loader: L) -> (m: ModelManager<L>)
        ensures
            !m.resident(),
            m.loader_spec() == loader,
    {
        ModelManager { loader, loaded: None }
    }

    /// Whether the model is resident right now.
    pub fn is_loaded(&self) -> (b: bool)
        ensures
            b == self.resident(),
    {
        self.loaded.is_some()
    }

    /// Answers one prompt: load, generate, unload. A failed load is
    /// returned as is; a generation's result, success or failure, is
    /// returned after the model is dropped. Either way nothing stays
    /// resident.
    pub fn generate(&mut self, prompt: &str, max_tokens: usize) -> (r: Result<String, RagError>)
        ensures
            !final(self).resident(),
            final(self).loader_spec() == old(self).loader_spec(),
            old(self).one_call_answer(prompt@, max_tokens, r),
    {
        self.loaded = None;
        let outcome = self.loader.load();
        let ghost loaded = outcome;
        let model = match outcome {
            Ok(m) => m,
            Err(e) => {
                assert(old(self).loader_spec().yields(loaded));
                return Err(e);
            },
        };
        let ghost model_before = model;
        self.loaded = Some(model);
        let answer = match &mut self.loaded {
            Some(m) => m.generate(prompt, max_tokens),
            None => vstd::pervasive::unreached(),
        };
        assert(model_before.answers(prompt@, max_tokens, answer));
        assert(old(self).loader_spec().yields(loaded));
        self.loaded = None;
        answer
    }
}

} // verus!
