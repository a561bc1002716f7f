//! The success cache: an action that succeeded on some inputs is not run
//! again on the same inputs.
//!
//! The cache is a directory of empty marker files, one for each content
//! hash on which an action succeeded.  Whoever runs an action performs the
//! steps that touch the file system and the target, and asks `advance`
//! after each of them what to do next.
//!
//! A marker is named by the hash of the inputs alone, not by the action:
//! a success of one cacheable action stands for every cacheable action on
//! the same inputs, so a lint that passed keeps a test of the same files
//! from running.

use vstd::prelude::*;
use crate::text::{append_chars, chars_of, string_of};

verus! {

/// The step that failed.
#[derive(Debug, Clone, Copy, PartialEq, Eq)]
pub enum Failure {
    /// The target could not tell its source files.
    Sources,
    /// The source files could not be listed, or there are none.
    Listing,
    /// The source files could not be hashed.
    Hashing,
    /// The action itself failed.
    Action,
    /// The marker could not be created.
    Marker,
}

/// How a cached run ended.
#[derive(Debug, Clone, Copy, PartialEq, Eq)]
pub enum Outcome {
    /// The action was executed and succeeded.
    Succeeded,
    /// The action was not executed: it succeeded before on these inputs.
    Skipped,
    /// A step failed; no marker was created.
    Failed(Failure),
}

/// How far a cached run has come.
#[derive(Debug, PartialEq, Eq)]
pub enum Stage {
    Start,
    /// Waiting to learn whether the target declares source files.
    Sources,
    /// Waiting for the source files to be listed.
    Listing,
    /// Waiting for the hash of the source files.
    Hashing,
    /// Waiting to learn whether the marker at this path exists.
    Lookup(String),
    /// Waiting for the action to end; the marker to create if it succeeds.
    Running(Option<String>),
    /// Waiting for the marker to be created.
    Marking,
    Finished,
}

/// What the caller learned by the step it was asked to do.
#[derive(Debug, PartialEq, Eq)]
pub enum Event {
    /// A run begins; whether a success of the action may be cached.
    Begin(bool),
    /// Whether the target declares source files.
    SourcesKnown(bool),
    /// The source files were listed and there is at least one.
    Listed,
    /// The hash of the source files, in hexadecimal.
    Hashed(String),
    /// Whether the marker exists.
    MarkerChecked(bool),
    /// The action succeeded.
    Ran,
    /// The marker was created.
    Marked,
    /// The step failed.
    Failed,
}

/// What the caller is to do next.
#[derive(Debug, PartialEq, Eq)]
pub enum Effect {
    /// Ask the target for its source files.
    AskSources,
    /// List the source files.
    ListFiles,
    /// Hash the source files.
    HashFiles,
    /// Look whether the marker at this path exists.
    CheckMarker(String),
    /// Execute the action.
    Run,
    /// Create the marker at this path, and its directory if it is missing.
    CreateMarker(String),
    /// Stop, with this outcome.
    Finish(Outcome),
    /// The event does not answer what was asked; nothing changes.
    Rejected,
}

pub ghost enum StageView {
    Start,
    Sources,
    Listing,
    Hashing,
    Lookup(Seq<char>),
    Running(Option<Seq<char>>),
    Marking,
    Finished,
}

pub ghost enum EventView {
    Begin(bool),
    SourcesKnown(bool),
    Listed,
    Hashed(Seq<char>),
    MarkerChecked(bool),
    Ran,
    Marked,
    Failed,
}

pub ghost enum EffectView {
    AskSources,
    ListFiles,
    HashFiles,
    CheckMarker(Seq<char>),
    Run,
    CreateMarker(Seq<char>),
    Finish(Outcome),
    Rejected,
}

impl View for Stage {
    type V = StageView;

    open spec fn view(&self) -> StageView {
        match self {
            Stage::Start => StageView::Start,
            Stage::Sources => StageView::Sources,
            Stage::Listing => StageView::Listing,
            Stage::Hashing => StageView::Hashing,
            Stage::Lookup(marker) => StageView::Lookup(marker@),
            Stage::Running(Some(marker)) => StageView::Running(Some(marker@)),
            Stage::Running(None) => StageView::Running(None),
            Stage::Marking => StageView::Marking,
            Stage::Finished => StageView::Finished,
        }
    }
}

impl View for Event {
    type V = EventView;

    open spec fn view(&self) -> EventView {
        match self {
            Event::Begin(cacheable) => EventView::Begin(*cacheable),
            Event::SourcesKnown(declared) => EventView::SourcesKnown(*declared),
            Event::Listed => EventView::Listed,
            Event::Hashed(hex) => EventView::Hashed(hex@),
            Event::MarkerChecked(exists) => EventView::MarkerChecked(*exists),
            Event::Ran => EventView::Ran,
            Event::Marked => EventView::Marked,
            Event::Failed => EventView::Failed,
        }
    }
}

impl View for Effect {
    type V = EffectView;

    open spec fn view(&self) -> EffectView {
        match self {
            Effect::AskSources => EffectView::AskSources,
            Effect::ListFiles => EffectView::ListFiles,
            Effect::HashFiles => EffectView::HashFiles,
            Effect::CheckMarker(path) => EffectView::CheckMarker(path@),
            Effect::Run => EffectView::Run,
            Effect::CreateMarker(path) => EffectView::CreateMarker(path@),
            Effect::Finish(outcome) => EffectView::Finish(*outcome),
            Effect::Rejected => EffectView::Rejected,
        }
    }
}

/// The directory that holds the markers.
pub open spec fn cache_root_text() -> Seq<char> {
    ".gentle_cache/successes"@
}

/// The path of the marker for the hash written `hex`: the marker
/// directory, a separator and the hash.
pub open spec fn marker_of(hex: Seq<char>) -> Seq<char> {
    cache_root_text() + seq!['/'] + hex
}

/// What follows an event: the next stage and what the caller is to do.
///
/// An action whose success may not be cached, or whose target declares no
/// source files, is executed at once and leaves no marker.  Any other is
/// executed only if the marker for the hash of its source files is
/// missing, and the marker is created only after it succeeded.
pub open spec fn transition(stage: StageView, event: EventView) -> (StageView, EffectView) {
    match (stage, event) {
        (StageView::Start, EventView::Begin(cacheable)) => if cacheable {
            (StageView::Sources, EffectView::AskSources)
        } else {
            (StageView::Running(None), EffectView::Run)
        },
        (StageView::Sources, EventView::SourcesKnown(declared)) => if declared {
            (StageView::Listing, EffectView::ListFiles)
        } else {
            (StageView::Running(None), EffectView::Run)
        },
        (StageView::Sources, EventView::Failed) => (
            StageView::Finished,
            EffectView::Finish(Outcome::Failed(Failure::Sources)),
        ),
        (StageView::Listing, EventView::Listed) => (StageView::Hashing, EffectView::HashFiles),
        (StageView::Listing, EventView::Failed) => (
            StageView::Finished,
            EffectView::Finish(Outcome::Failed(Failure::Listing)),
        ),
        (StageView::Hashing, EventView::Hashed(hex)) => (
            StageView::Lookup(marker_of(hex)),
            EffectView::CheckMarker(marker_of(hex)),
        ),
        (StageView::Hashing, EventView::Failed) => (
            StageView::Finished,
            EffectView::Finish(Outcome::Failed(Failure::Hashing)),
        ),
        (StageView::Lookup(marker), EventView::MarkerChecked(exists)) => if exists {
            (StageView::Finished, EffectView::Finish(Outcome::Skipped))
        } else {
            (StageView::Running(Some(marker)), EffectView::Run)
        },
        (StageView::Running(Some(marker)), EventView::Ran) => (
            StageView::Marking,
            EffectView::CreateMarker(marker),
        ),
        (StageView::Running(None), EventView::Ran) => (
            StageView::Finished,
            EffectView::Finish(Outcome::Succeeded),
        ),
        (StageView::Running(_), EventView::Failed) => (
            StageView::Finished,
            EffectView::Finish(Outcome::Failed(Failure::Action)),
        ),
        (StageView::Marking, EventView::Marked) => (
            StageView::Finished,
            EffectView::Finish(Outcome::Succeeded),
        ),
        (StageView::Marking, EventView::Failed) => (
            StageView::Finished,
            EffectView::Finish(Outcome::Failed(Failure::Marker)),
        ),
        _ => (stage, EffectView::Rejected),
    }
}

/// The directory that holds the markers.
pub fn cache_root() -> (root: &'static str)
    ensures
        root@ == cache_root_text(),
{
    ".gentle_cache/successes"
}

/// The path of the marker for the hash written `hex`.
pub fn marker_path(hex: &str) -> (path: String)
    ensures
        path@ == marker_of(hex@),
{
    let mut out = chars_of(cache_root());
    out.push('/');
    let rest = chars_of(hex);
    append_chars(&mut out, &rest);
    string_of(&out)
}

/// What follows an event: the next stage and what the caller is to do.
pub fn advance(stage: Stage, event: Event) -> (next: (Stage, Effect))
    ensures
        (next.0@, next.1@) == transition(stage@, event@),
{
    match (stage, event) {
        (Stage::Start, Event::Begin(cacheable)) => {
            if cacheable {
                (Stage::Sources, Effect::AskSources)
            } else {
                (Stage::Running(None), Effect::Run)
            }
        },
        (Stage::Sources, Event::SourcesKnown(declared)) => {
            if declared {
                (Stage::Listing, Effect::ListFiles)
            } else {
                (Stage::Running(None), Effect::Run)
            }
        },
        (Stage::Sources, Event::Failed) => (
            Stage::Finished,
            Effect::Finish(Outcome::Failed(Failure::Sources)),
        ),
        (Stage::Listing, Event::Listed) => (Stage::Hashing, Effect::HashFiles),
        (Stage::Listing, Event::Failed) => (
            Stage::Finished,
            Effect::Finish(Outcome::Failed(Failure::Listing)),
        ),
        (Stage::Hashing, Event::Hashed(hex)) => {
            let marker = marker_path(hex.as_str());
            let again = marker.clone();
            (Stage::Lookup(marker), Effect::CheckMarker(again))
        },
        (Stage::Hashing, Event::Failed) => (
            Stage::Finished,
            Effect::Finish(Outcome::Failed(Failure::Hashing)),
        ),
        (Stage::Lookup(marker), Event::MarkerChecked(exists)) => {
            if exists {
                (Stage::Finished, Effect::Finish(Outcome::Skipped))
            } else {
                (Stage::Running(Some(marker)), Effect::Run)
            }
        },
        (Stage::Running(Some(marker)), Event::Ran) => (Stage::Marking, Effect::CreateMarker(marker)),
        (Stage::Running(None), Event::Ran) => (Stage::Finished, Effect::Finish(Outcome::Succeeded)),
        (Stage::Running(_), Event::Failed) => (
            Stage::Finished,
            Effect::Finish(Outcome::Failed(Failure::Action)),
        ),
        (Stage::Marking, Event::Marked) => (Stage::Finished, Effect::Finish(Outcome::Succeeded)),
        (Stage::Marking, Event::Failed) => (
            Stage::Finished,
            Effect::Finish(Outcome::Failed(Failure::Marker)),
        ),
        (stage, _) => (stage, Effect::Rejected),
    }
}

} // verus!
