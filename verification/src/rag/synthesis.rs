//! Recall answers: choosing which retrieved notes the generative model is
//! shown, building a prompt that keeps it answering from them alone, and
//! labelling what it produces as generated.
//!
//! Sources are taken in rank order while a token budget lasts, the first
//! always; each is shown numbered, with its destination path and its age.
//! With no sources the model is never loaded.
use vstd::prelude::*;
use vstd::string::StringExecFns;

use crate::rag::chunking::{find_word_spans, word_spans};
use crate::rag::error::RagError;
use crate::rag::model_manager::{ModelLoader, ModelManager};
use crate::rag::search::{RetrievalWindow, SearchOptions};
use crate::text::{chars_of, decimal, decimal_spec, string_views, trim, trimmed};

verus! {

/// Tokens of retrieved context one prompt may spend.
pub const CONTEXT_TOKEN_BUDGET: usize = 2400;

/// Longest answer the model may produce, in tokens.
pub const ANSWER_TOKEN_LIMIT: usize = 400;

/// How many results to retrieve before the budget trims them.
pub const SEARCH_LIMIT: usize = 30;

/// How the user interface must present an answer: as generated.
#[derive(Debug, Clone, Copy, PartialEq, Eq, Structural)]
pub enum AnswerLabel {
    /// A machine-generated summary.
    AiSummary,
}

/// The retrieval options a recall question starts with: the last thirty
/// days, optionally scoped, up to [`SEARCH_LIMIT`] results.
pub fn sleep_mode_options(scope: Option<u128>) -> (o: SearchOptions)
    ensures
        o == (SearchOptions {
            window: RetrievalWindow::Days(30),
            scope,
            limit: SEARCH_LIMIT,
            offset: 0,
        }),
{
    SearchOptions { window: RetrievalWindow::sleep_mode_default(), scope, limit: SEARCH_LIMIT, offset: 0 }
}

/// The token estimate for `words` words: 1.4 tokens a word, rounded up,
/// saturating at the machine limit.
pub open spec fn token_estimate(words: nat) -> nat {
    let t = (7 * words + 4) / 5;
    if t > usize::MAX {
        usize::MAX as nat
    } else {
        t
    }
}

/// A conservative token estimate for English text: 1.4 per
/// whitespace-separated word, rounded up, never under one per word.
pub fn estimate_tokens(text: &str) -> (n: usize)
    ensures
        n == token_estimate(word_spans(text@).len()),
{
    let v = chars_of(text);
    let words = find_word_spans(&v).len() as u128;
    let t = (7 * words + 4) / 5;
    if t > usize::MAX as u128 {
        usize::MAX
    } else {
        t as usize
    }
}

/// The token estimates of some texts.
pub open spec fn costs_of(texts: Seq<Seq<char>>) -> Seq<nat> {
    Seq::new(texts.len(), |i: int| token_estimate(word_spans(texts[i]).len()))
}

/// How many leading items, from `i` on with `spent` tokens already spent,
/// fit the budget: the first always, then each while the total stays within
/// `budget`, stopping at the first that does not fit. `None` when the
/// running total would leave the machine's range before that.
pub open spec fn selection(costs: Seq<nat>, budget: nat, i: nat, spent: nat) -> Option<nat>
    decreases costs.len() - i,
{
    if i >= costs.len() {
        Some(i)
    } else if i == 0 {
        selection(costs, budget, 1, costs[0])
    } else if spent + costs[i as int] > usize::MAX {
        None
    } else if spent + costs[i as int] > budget {
        Some(i)
    } else {
        selection(costs, budget, i + 1, spent + costs[i as int])
    }
}

/// How many of the ranked sources with these chunk texts the model is
/// shown: in rank order while the token budget lasts, never skipping ahead
/// to a shorter one, and the best one even if it alone is over budget.
pub fn select_sources(chunk_texts: &Vec<String>, budget: usize) -> (k: usize)
    requires
        selection(costs_of(string_views(chunk_texts@)), budget as nat, 0, 0) is Some,
    ensures
        selection(costs_of(string_views(chunk_texts@)), budget as nat, 0, 0) == Some(k as nat),
{
    let ghost costs = costs_of(string_views(chunk_texts@));
    let mut spent: usize = 0;
    let mut i: usize = 0;
    while i < chunk_texts.len()
        invariant
            i <= chunk_texts@.len() == costs.len(),
            costs == costs_of(string_views(chunk_texts@)),
            selection(costs, budget as nat, i as nat, spent as nat) == selection(
                costs,
                budget as nat,
                0,
                0,
            ),
            selection(costs, budget as nat, 0, 0) is Some,
            i == 0 ==> spent == 0,
        decreases chunk_texts@.len() - i,
    {
        let cost = estimate_tokens(chunk_texts[i].as_str());
        assert(cost == costs[i as int]);
        if i > 0 {
            if cost > usize::MAX - spent {
                assert(false);
            }
            if spent + cost > budget {
                return i;
            }
        }
        spent = spent + cost;
        i += 1;
    }
    i
}

/// The age of a note `elapsed` milliseconds old, in the words a recall
/// question is asked in; a note from the future reads as today.
pub open spec fn age_spec(elapsed: int) -> Seq<char> {
    let days = elapsed / 86_400_000;
    if days <= 0 {
        "today"@
    } else if days == 1 {
        "yesterday"@
    } else if days <= 13 {
        decimal_spec(days as nat) + " days ago"@
    } else if days <= 60 {
        decimal_spec((days / 7) as nat) + " weeks ago"@
    } else {
        decimal_spec((days / 30) as nat) + " months ago"@
    }
}

/// A note's age relative to `now_ms`, in whole days: today, yesterday,
/// days up to 13, weeks up to 60 days, months after.
pub fn relative_age(timestamp_ms: i64, now_ms: i64) -> (s: String)
    requires
        i64::MIN <= now_ms - timestamp_ms <= i64::MAX,
    ensures
        s@ == age_spec(now_ms - timestamp_ms),
{
    let elapsed = (now_ms as i128) - (timestamp_ms as i128);
    assert(elapsed == now_ms - timestamp_ms);
    if elapsed < 86_400_000 {
        return String::from_str("today");
    }
    let days = (elapsed / 86_400_000) as u128;
    assert(days as int == (elapsed as int) / 86_400_000);
    if days == 1 {
        String::from_str("yesterday")
    } else if days <= 13 {
        let mut s = decimal(days);
        s.append(" days ago");
        s
    } else if days <= 60 {
        let mut s = decimal(days / 7);
        s.append(" weeks ago");
        s
    } else {
        let mut s = decimal(days / 30);
        s.append(" months ago");
        s
    }
}

/// What the model is shown of one retrieved note.
#[derive(Debug, Clone, PartialEq, Eq)]
pub struct PromptSource {
    /// The names of its destination's ancestor chain, root first.
    pub path: Vec<String>,
    /// The note version's own timestamp.
    pub timestamp: i64,
    /// The matched chunk.
    pub chunk_text: String,
}

/// A prompt source as (path names, timestamp, chunk text).
pub open spec fn source_view(s: PromptSource) -> (Seq<Seq<char>>, i64, Seq<char>) {
    (string_views(s.path@), s.timestamp, s.chunk_text@)
}

/// The views of some prompt sources.
pub open spec fn source_views(ss: Seq<PromptSource>) -> Seq<(Seq<Seq<char>>, i64, Seq<char>)> {
    Seq::new(ss.len(), |i: int| source_view(ss[i]))
}

/// The instructions that open every prompt.
pub open spec fn prompt_header() -> Seq<char> {
    "You are answering a question using only the personal notes provided below.\nUse nothing except these notes. Do not add outside knowledge, and do not\nguess. If the notes do not contain the answer, say so plainly.\nAnswer in a few sentences.\n\nNotes:\n"@
}

/// `parts` joined by `sep`.
pub open spec fn joined_with(parts: Seq<Seq<char>>, sep: Seq<char>) -> Seq<char>
    decreases parts.len(),
{
    if parts.len() == 0 {
        Seq::empty()
    } else if parts.len() == 1 {
        parts[0]
    } else {
        joined_with(parts.drop_last(), sep) + sep + parts.last()
    }
}

/// A destination path as the prompt shows it: the names joined by ` / `,
/// or `Unfiled` when there are none.
pub open spec fn path_text(path: Seq<Seq<char>>) -> Seq<char> {
    if path.len() == 0 {
        "Unfiled"@
    } else {
        joined_with(path, " / "@)
    }
}

/// The prompt line for source `i` (counted from zero).
pub open spec fn source_line(i: nat, s: (Seq<Seq<char>>, i64, Seq<char>), now_ms: i64) -> Seq<char> {
    "["@ + decimal_spec(i + 1) + "] ("@ + path_text(s.0) + ", "@ + age_spec(now_ms - s.1) + ") "@
        + trim(s.2) + "\n"@
}

/// The lines for the first `k` sources.
pub open spec fn source_lines(ss: Seq<(Seq<Seq<char>>, i64, Seq<char>)>, now_ms: i64, k: nat) -> Seq<char>
    decreases k,
{
    if k == 0 || k > ss.len() {
        Seq::empty()
    } else {
        source_lines(ss, now_ms, (k - 1) as nat) + source_line((k - 1) as nat, ss[k - 1], now_ms)
    }
}

/// The whole grounded-only prompt for `question` over `ss`.
pub open spec fn prompt_spec(question: Seq<char>, ss: Seq<(Seq<Seq<char>>, i64, Seq<char>)>, now_ms: i64) -> Seq<char> {
    prompt_header() + source_lines(ss, now_ms, ss.len()) + "\nQuestion: "@ + trim(question)
        + "\nAnswer:"@
}

/// Whether every source's age is computable without leaving `i64`.
pub open spec fn ages_in_range(ss: Seq<PromptSource>, now_ms: i64) -> bool {
    forall|i: int|
        0 <= i < ss.len() ==> i64::MIN <= now_ms - (#[trigger] ss[i]).timestamp <= i64::MAX
}

/// The path names joined as the prompt shows them.
fn path_string(path: &Vec<String>) -> (s: String)
    ensures
        s@ == path_text(string_views(path@)),
{
    if path.len() == 0 {
        return String::from_str("Unfiled");
    }
    let mut s = path[0].clone();
    let mut i: usize = 1;
    assert(string_views(path@).take(1) =~= seq![path@[0]@]);
    while i < path.len()
        invariant
            1 <= i <= path@.len(),
            s@ == joined_with(string_views(path@).take(i as int), " / "@),
        decreases path@.len() - i,
    {
        s.append(" / ");
        s.append(path[i].as_str());
        assert(string_views(path@).take(i + 1).drop_last() =~= string_views(path@).take(i as int));
        i += 1;
    }
    assert(string_views(path@).take(i as int) =~= string_views(path@));
    s
}

/// Builds the grounded-only prompt: instructions, then each source numbered
/// from 1 with its path and age, then the trimmed question.
#[verifier::rlimit(40)]
pub fn build_prompt(question: &str, sources: &Vec<PromptSource>, now_ms: i64) -> (p: String)
    requires
        ages_in_range(sources@, now_ms),
    ensures
        p@ == prompt_spec(question@, source_views(sources@), now_ms),
{
    let ghost ss = source_views(sources@);
    let mut p = String::from_str("You are answering a question using only the personal notes provided below.\nUse nothing except these notes. Do not add outside knowledge, and do not\nguess. If the notes do not contain the answer, say so plainly.\nAnswer in a few sentences.\n\nNotes:\n");
    let mut i: usize = 0;
    while i < sources.len()
        invariant
            i <= sources@.len() == ss.len(),
            ss == source_views(sources@),
            ages_in_range(sources@, now_ms),
            p@ == prompt_header() + source_lines(ss, now_ms, i as nat),
        decreases sources@.len() - i,
    {
        let s = &sources[i];
        assert(i64::MIN <= now_ms - sources@[i as int].timestamp <= i64::MAX);
        p.append("[");
        let n = decimal((i as u128) + 1);
        p.append(n.as_str());
        p.append("] (");
        let path = path_string(&s.path);
        p.append(path.as_str());
        p.append(", ");
        let age = relative_age(s.timestamp, now_ms);
        p.append(age.as_str());
        p.append(") ");
        let chunk = trimmed(s.chunk_text.as_str());
        p.append(chunk.as_str());
        p.append("\n");
        assert(ss[i as int] == source_view(sources@[i as int]));
        assert(p@ =~= prompt_header() + source_lines(ss, now_ms, (i + 1) as nat));
        i += 1;
    }
    p.append("\nQuestion: ");
    let q = trimmed(question);
    p.append(q.as_str());
    p.append("\nAnswer:");
    p
}

/// What answering needs done: nothing, when no source is selected, or a
/// prompt over the first `source_count` sources.
#[derive(Debug, Clone, PartialEq, Eq)]
pub enum AnswerPlan {
    NothingFound,
    Ask { prompt: String, source_count: usize },
}

/// Whether the sources' selection and ages stay within the machine's range.
pub open spec fn answerable(sources: Seq<PromptSource>, now_ms: i64) -> bool {
    &&& selection(costs_of(chunk_views(sources)), CONTEXT_TOKEN_BUDGET as nat, 0, 0) is Some
    &&& ages_in_range(sources, now_ms)
}

/// Whether answering from `sources` at `now_ms` stays within the machine's
/// range, which is what [`answer_from_sources`] asks of its caller: every
/// note's age fits an `i64`, and the running token total of the selection
/// fits a `usize`.
pub fn answerable_now(sources: &Vec<PromptSource>, now_ms: i64) -> (b: bool)
    ensures
        b == answerable(sources@, now_ms),
{
    let mut i: usize = 0;
    while i < sources.len()
        invariant
            i <= sources@.len(),
            forall|k: int|
                0 <= k < i ==> i64::MIN <= now_ms - (#[trigger] sources@[k]).timestamp <= i64::MAX,
        decreases sources@.len() - i,
    {
        let elapsed = (now_ms as i128) - (sources[i].timestamp as i128);
        if elapsed < i64::MIN as i128 || elapsed > i64::MAX as i128 {
            return false;
        }
        i += 1;
    }
    let ghost costs = costs_of(chunk_views(sources@));
    let mut spent: usize = 0;
    let mut j: usize = 0;
    while j < sources.len()
        invariant
            j <= sources@.len() == costs.len(),
            costs == costs_of(chunk_views(sources@)),
            ages_in_range(sources@, now_ms),
            selection(costs, CONTEXT_TOKEN_BUDGET as nat, j as nat, spent as nat) == selection(
                costs,
                CONTEXT_TOKEN_BUDGET as nat,
                0,
                0,
            ),
            j == 0 ==> spent == 0,
        decreases sources@.len() - j,
    {
        let cost = estimate_tokens(sources[j].chunk_text.as_str());
        assert(cost == costs[j as int]);
        if j > 0 {
            if cost > usize::MAX - spent {
                return false;
            }
            if spent + cost > CONTEXT_TOKEN_BUDGET {
                return true;
            }
        }
        spent = spent + cost;
        j += 1;
    }
    true
}

/// The chunk texts of some sources.
pub open spec fn chunk_views(ss: Seq<PromptSource>) -> Seq<Seq<char>> {
    Seq::new(ss.len(), |i: int| ss[i].chunk_text@)
}

/// Decides what answering `question` from the ranked `sources` takes: the
/// sources within [`CONTEXT_TOKEN_BUDGET`], and the prompt over them.
pub fn plan_answer(question: &str, sources: &Vec<PromptSource>, now_ms: i64) -> (a: AnswerPlan)
    requires
        answerable(sources@, now_ms),
    ensures
        ({
            let k = selection(costs_of(chunk_views(sources@)), CONTEXT_TOKEN_BUDGET as nat, 0, 0)->0;
            if k == 0 {
                a is NothingFound
            } else {
                a matches AnswerPlan::Ask { prompt, source_count } && source_count == k
                    && prompt@ == prompt_spec(
                    question@,
                    source_views(sources@.take(k as int)),
                    now_ms,
                )
            }
        }),
{
    let mut texts: Vec<String> = Vec::new();
    let mut i: usize = 0;
    while i < sources.len()
        invariant
            i <= sources@.len(),
            string_views(texts@) == chunk_views(sources@).take(i as int),
        decreases sources@.len() - i,
    {
        let ghost before = texts@;
        texts.push(sources[i].chunk_text.clone());
        assert(string_views(texts@) =~= string_views(before).push(sources@[i as int].chunk_text@));
        assert(chunk_views(sources@).take(i + 1) =~= chunk_views(sources@).take(i as int).push(
            sources@[i as int].chunk_text@,
        ));
        i += 1;
    }
    assert(chunk_views(sources@).take(i as int) =~= chunk_views(sources@));
    let k = select_sources(&texts, CONTEXT_TOKEN_BUDGET);
    if k == 0 {
        return AnswerPlan::NothingFound;
    }
    proof {
        lemma_selection_bounded(costs_of(chunk_views(sources@)), CONTEXT_TOKEN_BUDGET as nat, 0, 0);
    }
    let mut shown: Vec<PromptSource> = Vec::new();
    let mut j: usize = 0;
    while j < k
        invariant
            j <= k <= sources@.len(),
            shown@.len() == j,
            forall|t: int|
                0 <= t < j ==> source_view(#[trigger] shown@[t]) == source_view(sources@[t]),
        decreases k - j,
    {
        shown.push(sources[j].duplicate());
        j += 1;
    }
    assert(source_views(shown@) =~= source_views(sources@.take(k as int)));
    assert(ages_in_range(shown@, now_ms)) by {
        assert forall|t: int| 0 <= t < shown@.len() implies i64::MIN <= now_ms - (
        #[trigger] shown@[t]).timestamp <= i64::MAX by {
            assert(source_view(shown@[t]) == source_view(sources@[t]));
        }
    }
    let prompt = build_prompt(question, &shown, now_ms);
    AnswerPlan::Ask { prompt, source_count: k }
}

/// The sum of `s`.
pub open spec fn total(s: Seq<nat>) -> nat
    decreases s.len(),
{
    if s.len() == 0 {
        0
    } else {
        total(s.drop_last()) + s.last()
    }
}

proof fn lemma_selection_from(costs: Seq<nat>, budget: nat, i: nat, spent: nat)
    requires
        1 <= i <= costs.len(),
        spent == total(costs.take(i as int)),
        i >= 2 ==> spent <= budget,
        selection(costs, budget, i, spent) is Some,
    ensures
        ({
            let k = selection(costs, budget, i, spent)->0;
            &&& i <= k <= costs.len()
            &&& k >= 2 ==> total(costs.take(k as int)) <= budget
            &&& k < costs.len() ==> total(costs.take(k + 1 as int)) > budget
        }),
    decreases costs.len() - i,
{
    if i < costs.len() {
        assert(costs.take(i + 1 as int).drop_last() =~= costs.take(i as int));
        assert(costs.take(i + 1 as int).last() == costs[i as int]);
        if spent + costs[i as int] <= budget {
            lemma_selection_from(costs, budget, i + 1, spent + costs[i as int]);
        }
    }
}

/// The selection is a prefix of the ranked sources, never reordered by
/// length: the best source is always kept, even alone over budget; with two
/// or more, their tokens fit the budget; and the first source left out is
/// the one that would have overrun it.
pub proof fn lemma_selection_fits_budget(costs: Seq<nat>, budget: nat)
    requires
        selection(costs, budget, 0, 0) is Some,
    ensures
        ({
            let k = selection(costs, budget, 0, 0)->0;
            &&& k <= costs.len()
            &&& costs.len() > 0 ==> k >= 1
            &&& k >= 2 ==> total(costs.take(k as int)) <= budget
            &&& k < costs.len() ==> total(costs.take(k + 1 as int)) > budget
        }),
{
    if costs.len() > 0 {
        assert(costs.take(1).drop_last() =~= costs.take(0));
        assert(total(costs.take(0)) == 0);
        assert(total(costs.take(1)) == costs[0]);
        lemma_selection_from(costs, budget, 1, costs[0]);
    }
}

proof fn lemma_selection_bounded(costs: Seq<nat>, budget: nat, i: nat, spent: nat)
    ensures
        selection(costs, budget, i, spent) matches Some(k) ==> k <= costs.len() || k == i,
        i <= costs.len() ==> (selection(costs, budget, i, spent) matches Some(k) ==> i <= k
            <= costs.len()),
    decreases costs.len() - i,
{
    if i < costs.len() {
        if i == 0 {
            lemma_selection_bounded(costs, budget, 1, costs[0]);
        } else {
            lemma_selection_bounded(costs, budget, i + 1, spent + costs[i as int]);
        }
    }
}

impl PromptSource {
    /// A field-for-field copy.
    pub fn duplicate(&self) -> (s: PromptSource)
        ensures
            source_view(s) == source_view(*self),
            s.chunk_text == self.chunk_text,
    {
        let mut path: Vec<String> = Vec::new();
        let mut i: usize = 0;
        while i < self.path.len()
            invariant
                i <= self.path@.len(),
                path@ == self.path@.take(i as int),
            decreases self.path@.len() - i,
        {
            path.push(self.path[i].clone());
            assert(self.path@.take(i + 1) =~= self.path@.take(i as int).push(self.path@[i as int]));
            i += 1;
        }
        assert(self.path@.take(i as int) =~= self.path@);
        let s = PromptSource { path, timestamp: self.timestamp, chunk_text: self.chunk_text.clone() };
        assert(string_views(s.path@) =~= string_views(self.path@));
        s
    }
}

/// A grounded answer: the generated text, how many of the ranked sources it
/// was built from (the first ones), and its label.
#[derive(Debug, Clone, PartialEq, Eq)]
pub struct SleepModeAnswer {
    pub answer: String,
    pub source_count: usize,
    pub label: AnswerLabel,
}

/// What one question produced.
#[derive(Debug, Clone, PartialEq, Eq)]
pub enum SleepModeOutcome {
    Answered(SleepModeAnswer),
    /// Nothing in the window to answer from; the model was never loaded.
    NothingFound { window: RetrievalWindow },
}

/// Whether `r` is the outcome made of what the model produced: its text
/// trimmed and labelled as generated from the first `source_count` sources,
/// or its error passed on.
pub open spec fn finished(generated: Result<String, RagError>, source_count: usize, r: Result<SleepModeOutcome, RagError>) -> bool {
    match generated {
        Ok(t) => r matches Ok(SleepModeOutcome::Answered(a)) && a.answer@ == trim(t@)
            && a.source_count == source_count && a.label == AnswerLabel::AiSummary,
        Err(e) => r == Err::<SleepModeOutcome, RagError>(e),
    }
}

/// Turns what the model produced into the outcome: its text trimmed and
/// labelled as generated, or its error passed on.
pub fn finish_answer(generated: Result<String, RagError>, source_count: usize) -> (r: Result<SleepModeOutcome, RagError>)
    ensures
        finished(generated, source_count, r),
{
    match generated {
        Ok(t) => Ok(
            SleepModeOutcome::Answered(
                SleepModeAnswer {
                    answer: trimmed(t.as_str()),
                    source_count,
                    label: AnswerLabel::AiSummary,
                },
            ),
        ),
        Err(e) => Err(e),
    }
}

/// Answers `question` from the ranked `sources`, loading and unloading the
/// model once, and not at all when there is nothing to answer from.
pub fn answer_from_sources<L: ModelLoader>(
    manager: &mut ModelManager<L>,
    question: &str,
    sources: &Vec<PromptSource>,
    window: RetrievalWindow,
    now_ms: i64,
) -> (r: Result<SleepModeOutcome, RagError>)
    requires
        answerable(sources@, now_ms),
        !old(manager).resident(),
    ensures
        !final(manager).resident(),
        sources@.len() == 0 ==> r == Ok::<SleepModeOutcome, RagError>(
            SleepModeOutcome::NothingFound { window },
        ),
        sources@.len() > 0 ==> (r matches Ok(o) ==> (o matches SleepModeOutcome::Answered(a)
            && a.label == AnswerLabel::AiSummary && Some(a.source_count as nat) == selection(
            costs_of(chunk_views(sources@)),
            CONTEXT_TOKEN_BUDGET as nat,
            0,
            0,
        ))),
        sources@.len() > 0 ==> ({
            let k = selection(costs_of(chunk_views(sources@)), CONTEXT_TOKEN_BUDGET as nat, 0, 0)->0;
            exists|generated: Result<String, RagError>|
                #[trigger] old(manager).one_call_answer(
                    prompt_spec(question@, source_views(sources@.take(k as int)), now_ms),
                    ANSWER_TOKEN_LIMIT,
                    generated,
                ) && finished(generated, k as usize, r)
        }),
{
    proof {
        lemma_selection_bounded(costs_of(chunk_views(sources@)), CONTEXT_TOKEN_BUDGET as nat, 0, 0);
        if sources@.len() > 0 {
            let c = costs_of(chunk_views(sources@));
            assert(selection(c, CONTEXT_TOKEN_BUDGET as nat, 0, 0) == selection(
                c,
                CONTEXT_TOKEN_BUDGET as nat,
                1,
                c[0],
            ));
            lemma_selection_bounded(c, CONTEXT_TOKEN_BUDGET as nat, 1, c[0]);
        }
    }
    match plan_answer(question, sources, now_ms) {
        AnswerPlan::NothingFound => Ok(SleepModeOutcome::NothingFound { window }),
        AnswerPlan::Ask { prompt, source_count } => {
            let generated = manager.generate(prompt.as_str(), ANSWER_TOKEN_LIMIT);
            let ghost produced = generated;
            let r = finish_answer(generated, source_count);
            assert(finished(produced, source_count, r));
            r
        },
    }
}

/// The age text by whole days elapsed: a note less than a day old (or from
/// the future) is "today", one to two days old "yesterday", one of 2 to 13
/// whole days "<days> days ago", one of 14 to 60 days "<days / 7> weeks
/// ago", and an older one "<days / 30> months ago".
pub proof fn lemma_age_by_days(elapsed: int, days: int)
    requires
        days * 86_400_000 <= elapsed < (days + 1) * 86_400_000,
    ensures
        days <= 0 ==> age_spec(elapsed) == "today"@,
        days == 1 ==> age_spec(elapsed) == "yesterday"@,
        2 <= days <= 13 ==> age_spec(elapsed) == decimal_spec(days as nat) + " days ago"@,
        14 <= days <= 60 ==> age_spec(elapsed) == decimal_spec((days / 7) as nat) + " weeks ago"@,
        days > 60 ==> age_spec(elapsed) == decimal_spec((days / 30) as nat) + " months ago"@,
{
    vstd::arithmetic::div_mod::lemma_fundamental_div_mod_converse(
        elapsed,
        86_400_000,
        days,
        elapsed - days * 86_400_000,
    );
}

} // verus!
