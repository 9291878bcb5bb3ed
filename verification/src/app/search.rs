//! The decisions behind the classify, search and ask commands, and the
//! boundary forms of their results.
use vstd::prelude::*;

use crate::rag::classify::{classify, classify_spec, InputKind};
use crate::rag::search::{RetrievalWindow, ScopeGroup, SearchOptions};
use crate::rag::synthesis::{sleep_mode_options, AnswerLabel, SEARCH_LIMIT};

verus! {

/// Which command an input wants, as the user interface sees it.
#[derive(Debug, Clone, Copy, PartialEq, Eq, Structural)]
pub enum InputKindDto {
    /// Send it to the capture command.
    Statement,
    /// Send it to the ask command.
    Question,
}

impl From<InputKind> for InputKindDto {
    fn from(kind: InputKind) -> (r: InputKindDto) {
        match kind {
            InputKind::Statement => InputKindDto::Statement,
            InputKind::Question => InputKindDto::Question,
        }
    }
}

impl vstd::std_specs::convert::FromSpecImpl<InputKind> for InputKindDto {
    open spec fn obeys_from_spec() -> bool {
        true
    }

    open spec fn from_spec(kind: InputKind) -> InputKindDto {
        match kind {
            InputKind::Statement => InputKindDto::Statement,
            InputKind::Question => InputKindDto::Question,
        }
    }
}

/// The section a result renders in, as the user interface sees it.
#[derive(Debug, Clone, Copy, PartialEq, Eq, Structural)]
pub enum ScopeGroupDto {
    InScope,
    Elsewhere,
}

impl From<ScopeGroup> for ScopeGroupDto {
    fn from(group: ScopeGroup) -> (r: ScopeGroupDto) {
        match group {
            ScopeGroup::InScope => ScopeGroupDto::InScope,
            ScopeGroup::Elsewhere => ScopeGroupDto::Elsewhere,
        }
    }
}

impl vstd::std_specs::convert::FromSpecImpl<ScopeGroup> for ScopeGroupDto {
    open spec fn obeys_from_spec() -> bool {
        true
    }

    open spec fn from_spec(group: ScopeGroup) -> ScopeGroupDto {
        match group {
            ScopeGroup::InScope => ScopeGroupDto::InScope,
            ScopeGroup::Elsewhere => ScopeGroupDto::Elsewhere,
        }
    }
}

/// An answer's label, as the user interface sees it.
#[derive(Debug, Clone, Copy, PartialEq, Eq, Structural)]
pub enum AnswerLabelDto {
    AiSummary,
}

impl From<AnswerLabel> for AnswerLabelDto {
    fn from(label: AnswerLabel) -> (r: AnswerLabelDto) {
        match label {
            AnswerLabel::AiSummary => AnswerLabelDto::AiSummary,
        }
    }
}

impl vstd::std_specs::convert::FromSpecImpl<AnswerLabel> for AnswerLabelDto {
    open spec fn obeys_from_spec() -> bool {
        true
    }

    open spec fn from_spec(label: AnswerLabel) -> AnswerLabelDto {
        match label {
            AnswerLabel::AiSummary => AnswerLabelDto::AiSummary,
        }
    }
}

/// The boundary form of an input kind.
pub open spec fn kind_dto_spec(kind: InputKind) -> InputKindDto {
    match kind {
        InputKind::Statement => InputKindDto::Statement,
        InputKind::Question => InputKindDto::Question,
    }
}

/// Which command `text` wants; no model is involved.
pub fn classify_input_impl(text: &str) -> (k: InputKindDto)
    ensures
        k == kind_dto_spec(classify_spec(text@)),
{
    InputKindDto::from(classify(text))
}

/// The window a day count asks for; no count is all of history.
pub open spec fn window_spec(days: Option<u32>) -> RetrievalWindow {
    match days {
        Some(d) => RetrievalWindow::Days(d),
        None => RetrievalWindow::Unbounded,
    }
}

/// The window a day count from the boundary asks for: no count is all of
/// history.
pub fn window_from_days(days: Option<u32>) -> (w: RetrievalWindow)
    ensures
        w == window_spec(days),
{
    match days {
        Some(d) => RetrievalWindow::Days(d),
        None => RetrievalWindow::Unbounded,
    }
}

/// The day count a window crosses the boundary as.
pub fn window_days(window: RetrievalWindow) -> (d: Option<u32>)
    ensures
        window_spec(d) == window,
{
    match window {
        RetrievalWindow::Days(d) => Some(d),
        RetrievalWindow::Unbounded => None,
    }
}

/// A window survives the trip to the boundary and back, and so does a day
/// count.
pub proof fn lemma_window_round_trip(days: Option<u32>, window: RetrievalWindow)
    ensures
        window_spec(days) == window <==> days == (match window {
            RetrievalWindow::Days(d) => Some(d),
            RetrievalWindow::Unbounded => None::<u32>,
        }),
{
}

/// The options a plain search runs with.
pub fn search_options(scope: Option<u128>, window_days: Option<u32>, limit: usize, offset: usize) -> (o: SearchOptions)
    ensures
        o == (SearchOptions { window: window_spec(window_days), scope, limit, offset }),
{
    SearchOptions { window: window_from_days(window_days), scope, limit, offset }
}

/// The options an ask runs with: the recall defaults, with the window
/// widened to `window_days` when given.
pub fn ask_options(scope: Option<u128>, window_days: Option<u32>) -> (o: SearchOptions)
    ensures
        o == (SearchOptions {
            window: match window_days {
                Some(d) => RetrievalWindow::Days(d),
                None => RetrievalWindow::Days(30),
            },
            scope,
            limit: SEARCH_LIMIT,
            offset: 0,
        }),
{
    let mut options = sleep_mode_options(scope);
    if let Some(days) = window_days {
        options.window = RetrievalWindow::Days(days);
    }
    options
}

} // verus!
