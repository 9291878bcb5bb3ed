use std::sync::atomic::{AtomicUsize, Ordering};
use std::sync::Arc;

use blurt::rag::error::RagError;
use blurt::rag::model_manager::{ModelLoader, ModelManager, TextGenerator};
use blurt::rag::llama::LlamaLoader;

#[derive(Default)]
struct Journal {
    loads: AtomicUsize,
    drops: AtomicUsize,
}

struct FakeGenerator {
    journal: Arc<Journal>,
    fail: bool,
}

impl TextGenerator for FakeGenerator {
    fn generate(&mut self, prompt: &str, _max_tokens: usize) -> Result<String, RagError> {
        if self.fail {
            return Err(RagError::Generation("model exploded".to_string()));
        }
        Ok(format!("answered: {prompt}"))
    }
}

impl Drop for FakeGenerator {
    fn drop(&mut self) {
        self.journal.drops.fetch_add(1, Ordering::SeqCst);
    }
}

struct FakeLoader {
    journal: Arc<Journal>,
    failing_loads: AtomicUsize,
    fail_generate: bool,
}

impl ModelLoader for FakeLoader {
    type Generator = FakeGenerator;

    fn load(&self) -> Result<FakeGenerator, RagError> {
        self.journal.loads.fetch_add(1, Ordering::SeqCst);
        let remaining = self.failing_loads.load(Ordering::SeqCst);
        if remaining > 0 {
            self.failing_loads.store(remaining - 1, Ordering::SeqCst);
            return Err(RagError::ModelLoad("no such model file".to_string()));
        }
        Ok(FakeGenerator { journal: Arc::clone(&self.journal), fail: self.fail_generate })
    }
}

fn build(failing_loads: usize, fail_generate: bool) -> (ModelManager<FakeLoader>, Arc<Journal>) {
    let journal = Arc::new(Journal::default());
    let loader = FakeLoader {
        journal: Arc::clone(&journal),
        failing_loads: AtomicUsize::new(failing_loads),
        fail_generate,
    };
    (ModelManager::new(loader), journal)
}

#[test]
fn generate_returns_the_models_output() {
    let (mut manager, _) = build(0, false);
    assert_eq!(
        manager.generate("why is the sky blue", 128).unwrap(),
        "answered: why is the sky blue"
    );
}

#[test]
fn the_model_is_not_resident_before_or_after_a_question() {
    let (mut manager, journal) = build(0, false);

    assert!(!manager.is_loaded());
    manager.generate("anything", 128).unwrap();
    assert!(!manager.is_loaded());

    assert_eq!(journal.loads.load(Ordering::SeqCst), 1);
    assert_eq!(journal.drops.load(Ordering::SeqCst), 1);
}

#[test]
fn every_question_loads_again_because_this_is_not_a_cache() {
    let (mut manager, journal) = build(0, false);

    manager.generate("first", 128).unwrap();
    manager.generate("second", 128).unwrap();

    assert_eq!(journal.loads.load(Ordering::SeqCst), 2);
    assert_eq!(journal.drops.load(Ordering::SeqCst), 2);
}

#[test]
fn a_failed_generation_still_unloads() {
    let (mut manager, journal) = build(0, true);

    let error = manager.generate("anything", 128).err().expect("generation fails");
    assert!(matches!(error, RagError::Generation(_)), "got {error:?}");

    assert!(!manager.is_loaded());
    assert_eq!(journal.drops.load(Ordering::SeqCst), 1);
}

#[test]
fn a_failed_load_leaves_nothing_loaded() {
    let (mut manager, journal) = build(1, false);

    let error = manager.generate("anything", 128).err().expect("load fails");
    assert!(matches!(error, RagError::ModelLoad(_)), "got {error:?}");

    assert!(!manager.is_loaded());
    assert_eq!(journal.drops.load(Ordering::SeqCst), 0);
}

#[test]
fn a_later_question_still_works_after_a_failed_load() {
    let (mut manager, journal) = build(1, false);

    assert!(manager.generate("first", 128).is_err());
    assert!(manager.generate("second", 128).is_ok());

    assert_eq!(journal.loads.load(Ordering::SeqCst), 2);
    assert!(!manager.is_loaded());
}

#[test]
fn a_prompt_that_fits_the_context_is_accepted() {
    assert!(blurt::rag::llama::check_prompt_fits(3696, 400).is_ok());
}

#[test]
fn a_prompt_over_the_context_is_refused_not_truncated() {
    assert_eq!(
        blurt::rag::llama::check_prompt_fits(3697, 400),
        Err(blurt::rag::error::RagError::Generation(
            "prompt is 3697 tokens and 400 were requested, over the 4096-token context".to_string()
        ))
    );
}

#[test]
fn loader_reports_the_model_path_it_was_made_with() {
    let loader = LlamaLoader::new(std::path::PathBuf::from("/models/qwen.gguf"));
    assert_eq!(loader.model_path(), std::path::Path::new("/models/qwen.gguf"));
}
