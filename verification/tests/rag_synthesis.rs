use std::sync::{Arc, Mutex};

use blurt::rag::error::RagError;
use blurt::rag::model_manager::{ModelLoader, ModelManager, TextGenerator};
use blurt::rag::search::{RetrievalWindow, MS_PER_DAY};
use blurt::rag::synthesis::{
    answer_from_sources, build_prompt, estimate_tokens, plan_answer, relative_age,
    select_sources, sleep_mode_options, AnswerLabel, AnswerPlan, PromptSource, SleepModeOutcome,
    CONTEXT_TOKEN_BUDGET, SEARCH_LIMIT,
};

const NOW: i64 = 1_700_000_000_000;

struct SpyGenerator {
    seen: Arc<Mutex<Vec<String>>>,
    fail: bool,
}

impl TextGenerator for SpyGenerator {
    fn generate(&mut self, prompt: &str, _max_tokens: usize) -> Result<String, RagError> {
        self.seen.lock().unwrap().push(prompt.to_string());
        if self.fail {
            return Err(RagError::Generation("nope".to_string()));
        }
        Ok("  you bought oranges  ".to_string())
    }
}

struct SpyLoader {
    seen: Arc<Mutex<Vec<String>>>,
    fail: bool,
}

impl ModelLoader for SpyLoader {
    type Generator = SpyGenerator;

    fn load(&self) -> Result<SpyGenerator, RagError> {
        Ok(SpyGenerator { seen: Arc::clone(&self.seen), fail: self.fail })
    }
}

fn spy(fail: bool) -> (ModelManager<SpyLoader>, Arc<Mutex<Vec<String>>>) {
    let seen = Arc::new(Mutex::new(Vec::new()));
    let loader = SpyLoader { seen: Arc::clone(&seen), fail };
    (ModelManager::new(loader), seen)
}

fn source(text: &str, path: Vec<&str>, age_days: i64) -> PromptSource {
    PromptSource {
        path: path.into_iter().map(str::to_string).collect(),
        timestamp: NOW - age_days * MS_PER_DAY,
        chunk_text: text.to_string(),
    }
}

fn sized_text(words: usize) -> String {
    (0..words).map(|n| format!("w{n}")).collect::<Vec<_>>().join(" ")
}

#[test]
fn an_answer_carries_its_sources_and_its_label() {
    let (mut manager, _) = spy(false);
    let sources = vec![source("pick up oranges", vec!["Shopping"], 2)];

    let outcome = answer_from_sources(
        &mut manager,
        "did I buy oranges",
        &sources,
        RetrievalWindow::sleep_mode_default(),
        NOW,
    )
    .unwrap();

    match outcome {
        SleepModeOutcome::Answered(answer) => {
            assert_eq!(answer.answer, "you bought oranges", "the answer is trimmed");
            assert_eq!(answer.source_count, sources.len());
            assert_eq!(answer.label, AnswerLabel::AiSummary);
        }
        other => panic!("expected an answer, got {other:?}"),
    }
}

#[test]
fn no_sources_means_no_answer_and_no_model_load() {
    let (mut manager, seen) = spy(false);

    let outcome = answer_from_sources(
        &mut manager,
        "did I buy oranges",
        &Vec::new(),
        RetrievalWindow::sleep_mode_default(),
        NOW,
    )
    .unwrap();

    assert_eq!(
        outcome,
        SleepModeOutcome::NothingFound { window: RetrievalWindow::sleep_mode_default() }
    );
    assert!(seen.lock().unwrap().is_empty(), "the model must never load");
    assert!(!manager.is_loaded());
}

#[test]
fn the_prompt_forbids_answering_from_anything_but_the_notes() {
    let (mut manager, seen) = spy(false);
    answer_from_sources(
        &mut manager,
        "did I buy oranges",
        &vec![source("pick up oranges", vec!["Shopping"], 2)],
        RetrievalWindow::sleep_mode_default(),
        NOW,
    )
    .unwrap();

    let prompt = seen.lock().unwrap()[0].clone();
    assert!(prompt.contains("only the personal notes"), "prompt was:\n{prompt}");
    assert!(prompt.contains("Do not add outside knowledge"), "prompt was:\n{prompt}");
    assert!(prompt.contains("say so plainly"));
}

#[test]
fn the_prompt_carries_the_question_and_every_source() {
    let (mut manager, seen) = spy(false);
    answer_from_sources(
        &mut manager,
        "what did I buy",
        &vec![
            source("pick up oranges", vec!["Shopping", "Weekly"], 2),
            source("collect the dry cleaning", vec!["Errands"], 9),
        ],
        RetrievalWindow::sleep_mode_default(),
        NOW,
    )
    .unwrap();

    let prompt = seen.lock().unwrap()[0].clone();
    assert!(prompt.contains("what did I buy"));
    assert!(prompt.contains("pick up oranges"));
    assert!(prompt.contains("collect the dry cleaning"));
    assert!(prompt.contains("[1]"), "prompt was:\n{prompt}");
    assert!(prompt.contains("[2]"), "prompt was:\n{prompt}");
    assert!(prompt.contains("Shopping / Weekly"), "prompt was:\n{prompt}");
    assert!(prompt.contains("2 days ago"), "prompt was:\n{prompt}");
}

#[test]
fn a_failed_generation_propagates_rather_than_becoming_an_empty_answer() {
    let (mut manager, _) = spy(true);

    let error = answer_from_sources(
        &mut manager,
        "did I buy oranges",
        &vec![source("pick up oranges", vec!["Shopping"], 2)],
        RetrievalWindow::sleep_mode_default(),
        NOW,
    )
    .err()
    .expect("generation failed");

    assert!(matches!(error, RagError::Generation(_)), "got {error:?}");
    assert!(!manager.is_loaded(), "and it still unloads");
}

#[test]
fn sources_are_taken_in_rank_order_until_the_budget_runs_out() {
    let texts = vec![sized_text(100), sized_text(100), sized_text(100)];
    assert_eq!(select_sources(&texts, 300), 2);
}

#[test]
fn the_budget_never_reorders_by_length() {
    let texts = vec![sized_text(100), sized_text(500), sized_text(1)];
    let selected = select_sources(&texts, 300);

    assert_eq!(selected, 1, "selection stops, it does not skip ahead");
    assert_eq!(texts[0].split_whitespace().count(), 100);
}

#[test]
fn the_best_result_is_kept_even_if_it_alone_exceeds_the_budget() {
    assert_eq!(select_sources(&vec![sized_text(5000)], 10), 1);
}

#[test]
fn an_empty_result_set_selects_nothing() {
    assert_eq!(select_sources(&Vec::new(), CONTEXT_TOKEN_BUDGET), 0);
}

#[test]
fn token_estimates_err_upward() {
    assert!(estimate_tokens("one two three four five") >= 5);
    assert_eq!(estimate_tokens(""), 0);
}

#[test]
fn token_estimates_round_one_point_four_per_word_up() {
    assert_eq!(estimate_tokens("a"), 2);
    assert_eq!(estimate_tokens("a b c d e"), 7);
    assert_eq!(estimate_tokens(&sized_text(100)), 140);
}

#[test]
fn relative_age_reads_the_way_a_recall_question_is_asked() {
    assert_eq!(relative_age(NOW, NOW), "today");
    assert_eq!(relative_age(NOW - MS_PER_DAY, NOW), "yesterday");
    assert_eq!(relative_age(NOW - 3 * MS_PER_DAY, NOW), "3 days ago");
    assert_eq!(relative_age(NOW - 21 * MS_PER_DAY, NOW), "3 weeks ago");
    assert_eq!(relative_age(NOW - 90 * MS_PER_DAY, NOW), "3 months ago");
}

#[test]
fn a_future_timestamp_reads_as_today_rather_than_negative() {
    assert_eq!(relative_age(NOW + 5 * MS_PER_DAY, NOW), "today");
}

#[test]
fn a_prompt_reads_exactly_as_built() {
    let prompt = build_prompt(
        "  what did I buy  ",
        &vec![source("  oranges ", vec![], 0)],
        NOW,
    );
    assert!(prompt.ends_with("Notes:\n[1] (Unfiled, today) oranges\n\nQuestion: what did I buy\nAnswer:"));
}

#[test]
fn planning_with_no_sources_asks_nothing() {
    assert_eq!(plan_answer("anything", &Vec::new(), NOW), AnswerPlan::NothingFound);
    let options = sleep_mode_options(Some(7));
    assert_eq!(options.window, RetrievalWindow::Days(30));
    assert_eq!(options.scope, Some(7));
    assert_eq!(options.limit, SEARCH_LIMIT);
    assert_eq!(options.offset, 0);
}

#[test]
fn ordinary_sources_are_answerable() {
    let sources = vec![PromptSource {
        path: vec!["Shopping".to_string()],
        timestamp: 1_700_000_000_000,
        chunk_text: "pick up oranges".to_string(),
    }];
    assert!(blurt::rag::synthesis::answerable_now(&sources, 1_700_000_000_000));
    assert!(blurt::rag::synthesis::answerable_now(&Vec::new(), 0));
}

#[test]
fn an_age_past_the_clock_range_is_not_answerable() {
    let sources = vec![PromptSource {
        path: Vec::new(),
        timestamp: i64::MIN,
        chunk_text: "ancient".to_string(),
    }];
    assert!(!blurt::rag::synthesis::answerable_now(&sources, 1));
}
