//! The decisions behind the capture commands.
//!
//! Every capture with text is written somewhere: a resolved chain or a
//! confident natural-language match files it at that destination, and
//! anything else, including a chain naming a destination that does not
//! exist yet, files it in Unsorted. A capture whose text is empty once
//! trimmed (a bare `@chain`) is refused. Voice transcripts are only
//! normalized here, never captured, so the user can review the rewrites.
use vstd::prelude::*;

use crate::app::error::CommandError;
use crate::router::resolve::{DecisionView, Routing, RoutingDecision};
use crate::router::voice::{normalize_spec, normalize_spoken_at};
use crate::schema::destinations::UNSORTED_ID;
use crate::text::{chars_of, trim, trimmed_end, trimmed_start};

verus! {

/// One rewritten "at": where the `@` sits in the normalized text, and the
/// text it replaced verbatim.
#[derive(Debug, Clone, PartialEq, Eq)]
pub struct SpokenAtDto {
    pub offset: usize,
    pub original: String,
}

/// A transcript rewritten into `@` syntax, with what was rewritten.
#[derive(Debug, Clone, PartialEq, Eq)]
pub struct NormalizedVoiceDto {
    pub text: String,
    pub replacements: Vec<SpokenAtDto>,
}

/// The replacements of a normalized transcript as (offset, original text).
pub open spec fn spoken_dto_views(v: Seq<SpokenAtDto>) -> Seq<(nat, Seq<char>)> {
    Seq::new(v.len(), |i: int| (v[i].offset as nat, v[i].original@))
}

/// Rewrites the standalone spoken "at"s of a transcript for review; it
/// files nothing.
pub fn normalize_voice_transcript_impl(transcript: &str) -> (r: NormalizedVoiceDto)
    ensures
        r.text@ == normalize_spec(transcript@).0,
        spoken_dto_views(r.replacements@) == normalize_spec(transcript@).1,
{
    let normalized = normalize_spoken_at(transcript);
    let ghost views = normalized@.1;
    let mut replacements: Vec<SpokenAtDto> = Vec::new();
    let mut i: usize = 0;
    while i < normalized.replacements.len()
        invariant
            i <= normalized.replacements@.len(),
            views == normalized@.1,
            views.len() == normalized.replacements@.len(),
            forall|k: int|
                0 <= k < views.len() ==> views[k] == (
                    normalized.replacements@[k].offset as nat,
                    normalized.replacements@[k].original@,
                ),
            spoken_dto_views(replacements@) == views.take(i as int),
        decreases normalized.replacements@.len() - i,
    {
        let r = &normalized.replacements[i];
        let ghost before = replacements@;
        let original = r.original.clone();
        replacements.push(SpokenAtDto { offset: r.offset, original });
        assert(views[i as int] == (r.offset as nat, r.original@));
        assert(spoken_dto_views(replacements@) =~= spoken_dto_views(before).push(views[i as int]));
        assert(views.take(i + 1) =~= views.take(i as int).push(views[i as int]));
        i += 1;
    }
    assert(views.take(i as int) =~= views);
    NormalizedVoiceDto { text: normalized.text, replacements }
}

/// Where a routed capture is written: the destination the decision names,
/// or Unsorted.
pub open spec fn capture_target_spec(d: DecisionView) -> u128 {
    match d {
        DecisionView::Resolved { destination_id } => destination_id,
        DecisionView::NlMatched { destination_id, .. } => destination_id,
        DecisionView::Unrouted => UNSORTED_ID,
        DecisionView::Create { .. } => UNSORTED_ID,
    }
}

/// The destination a routed capture is written to, or the refusal of a
/// capture with no text.
pub fn capture_target(routing: &Routing) -> (r: Result<u128, CommandError>)
    ensures
        trim(routing.text@).len() == 0 ==> r == Err::<u128, CommandError>(CommandError::EmptyCapture),
        trim(routing.text@).len() > 0 ==> r == Ok::<u128, CommandError>(
            capture_target_spec(routing.decision@),
        ),
        trim(routing.text@).len() > 0 ==> match routing.decision@ {
            DecisionView::Resolved { destination_id } => r == Ok::<u128, CommandError>(destination_id),
            DecisionView::NlMatched { destination_id, .. } => r == Ok::<u128, CommandError>(destination_id),
            _ => r == Ok::<u128, CommandError>(UNSORTED_ID),
        },
{
    let v = chars_of(routing.text.as_str());
    let n = v.len();
    let e = trimmed_end(&v, 0, n);
    let s = trimmed_start(&v, 0, e);
    assert(v@.subrange(0, n as int) =~= routing.text@);
    if s == e {
        return Err(CommandError::EmptyCapture);
    }
    match &routing.decision {
        RoutingDecision::Resolved { destination_id } => Ok(*destination_id),
        RoutingDecision::NlMatched { destination_id, .. } => Ok(*destination_id),
        RoutingDecision::Unrouted => Ok(UNSORTED_ID),
        RoutingDecision::Create { .. } => Ok(UNSORTED_ID),
    }
}

/// A capture is written where its decision points: a resolved chain's
/// destination, a natural-language match's destination, and Unsorted only
/// when nothing was routed or the chain names a destination still to be
/// created.
pub proof fn lemma_capture_follows_decision(d: DecisionView)
    ensures
        d matches DecisionView::NlMatched { destination_id, .. } ==> capture_target_spec(d) == destination_id,
        d matches DecisionView::Resolved { destination_id } ==> capture_target_spec(d) == destination_id,
        d is Unrouted ==> capture_target_spec(d) == UNSORTED_ID,
        d is Create ==> capture_target_spec(d) == UNSORTED_ID,
{
}

} // verus!
