//! What holds of cached runs, played against a model of the world: an
//! action that succeeded is not executed again while its inputs hash the
//! same, and an action that failed leaves no marker.

use vstd::prelude::*;
use crate::cache::{EffectView, EventView, Failure, Outcome, StageView, marker_of, transition};

verus! {

/// The world in which a cached run takes place.
pub ghost struct World {
    /// Whether a success of the action may be cached.
    pub cacheable: bool,
    /// Whether the target can tell its source files, and declares any.
    pub sources: Option<bool>,
    /// Whether the source files can be listed.
    pub listing_ok: bool,
    /// The hash of the source files in hexadecimal, if they can be hashed.
    pub digest: Option<Seq<char>>,
    /// Whether the action succeeds.
    pub action_ok: bool,
    /// Whether markers can be created.
    pub marking_ok: bool,
    /// The markers that exist.
    pub markers: Set<Seq<char>>,
}

/// How a run ended, how often the action was executed in it, and the
/// markers that exist after it.
pub ghost struct Played {
    pub outcome: Outcome,
    pub executions: nat,
    pub markers: Set<Seq<char>>,
}

/// How the world answers what the caller is asked to do.
pub open spec fn reply(world: World, effect: EffectView) -> EventView {
    match effect {
        EffectView::AskSources => match world.sources {
            Some(declared) => EventView::SourcesKnown(declared),
            None => EventView::Failed,
        },
        EffectView::ListFiles => if world.listing_ok {
            EventView::Listed
        } else {
            EventView::Failed
        },
        EffectView::HashFiles => match world.digest {
            Some(hex) => EventView::Hashed(hex),
            None => EventView::Failed,
        },
        EffectView::CheckMarker(path) => EventView::MarkerChecked(world.markers.contains(path)),
        EffectView::Run => if world.action_ok {
            EventView::Ran
        } else {
            EventView::Failed
        },
        EffectView::CreateMarker(_) => if world.marking_ok {
            EventView::Marked
        } else {
            EventView::Failed
        },
        _ => EventView::Failed,
    }
}

/// The world after the caller did what it was asked to do.
pub open spec fn world_after(world: World, effect: EffectView) -> World {
    match effect {
        EffectView::CreateMarker(path) => if world.marking_ok {
            World { markers: world.markers.insert(path), ..world }
        } else {
            world
        },
        _ => world,
    }
}

/// A run from `stage` on, in which `event` is the next answer and at most
/// `steps` further answers follow; nothing if the run does not end within
/// them, or an answer is rejected.
pub open spec fn play(world: World, stage: StageView, event: EventView, steps: nat) -> Option<
    Played,
>
    decreases steps,
{
    let (next, effect) = transition(stage, event);
    match effect {
        EffectView::Finish(outcome) => Some(
            Played { outcome, executions: 0, markers: world.markers },
        ),
        EffectView::Rejected => None,
        _ => if steps == 0 {
            None
        } else {
            match play(world_after(world, effect), next, reply(world, effect), (steps - 1) as nat) {
                Some(rest) => Some(
                    Played {
                        executions: rest.executions + if effect is Run {
                            1nat
                        } else {
                            0nat
                        },
                        ..rest
                    },
                ),
                None => None,
            }
        },
    }
}

/// One whole run in `world`, from its beginning to its end.
pub open spec fn run(world: World) -> Played {
    play(world, StageView::Start, EventView::Begin(world.cacheable), 6)->0
}

/// Every run ends, after at most six steps and without a rejected answer,
/// and executes the action at most once; the only marker it may create is
/// the one of the hash of its inputs.
pub proof fn lemma_every_run_ends(world: World)
    ensures
        play(world, StageView::Start, EventView::Begin(world.cacheable), 6) is Some,
        run(world).executions <= 1,
        run(world).markers.subset_of(
            match world.digest {
                Some(hex) => world.markers.insert(marker_of(hex)),
                None => world.markers,
            },
        ),
{
    reveal_with_fuel(play, 7);
}

/// Different hashes have different markers.
pub proof fn lemma_markers_differ(a: Seq<char>, b: Seq<char>)
    requires
        a != b,
    ensures
        marker_of(a) != marker_of(b),
{
    let head = crate::cache::cache_root_text() + seq!['/'];
    if marker_of(a) == marker_of(b) {
        assert(marker_of(a).skip(head.len() as int) =~= a);
        assert(marker_of(b).skip(head.len() as int) =~= b);
    }
}

/// A cacheable action that succeeds is executed once and leaves its
/// marker; run again on inputs that hash the same, it is not executed.
pub proof fn lemma_success_is_cached(world: World, hex: Seq<char>)
    requires
        world.cacheable,
        world.sources == Some(true),
        world.listing_ok,
        world.digest == Some(hex),
        world.action_ok,
        world.marking_ok,
        !world.markers.contains(marker_of(hex)),
    ensures
        run(world).outcome == Outcome::Succeeded,
        run(world).executions == 1,
        run(world).markers == world.markers.insert(marker_of(hex)),
        run(World { markers: run(world).markers, ..world }).outcome == Outcome::Skipped,
        run(World { markers: run(world).markers, ..world }).executions == 0,
        run(World { markers: run(world).markers, ..world }).markers == run(world).markers,
{
    reveal_with_fuel(play, 7);
}

/// After a success, inputs that hash differently are executed again
/// unless they have a marker of their own.
pub proof fn lemma_changed_inputs_run_again(world: World, hex: Seq<char>, other: Seq<char>)
    requires
        world.cacheable,
        world.sources == Some(true),
        world.listing_ok,
        world.digest == Some(hex),
        world.action_ok,
        world.marking_ok,
        !world.markers.contains(marker_of(hex)),
        other != hex,
        !world.markers.contains(marker_of(other)),
    ensures
        run(World { markers: run(world).markers, digest: Some(other), ..world }).executions == 1,
{
    reveal_with_fuel(play, 7);
    lemma_markers_differ(other, hex);
}

/// Whenever a marker is found, the action is not executed and the run
/// succeeds.
pub proof fn lemma_marker_skips(world: World, hex: Seq<char>)
    requires
        world.cacheable,
        world.sources == Some(true),
        world.listing_ok,
        world.digest == Some(hex),
        world.markers.contains(marker_of(hex)),
    ensures
        run(world).outcome == Outcome::Skipped,
        run(world).executions == 0,
        run(world).markers == world.markers,
{
    reveal_with_fuel(play, 7);
}

/// A run in which the action fails creates no marker and reports the
/// failure.
pub proof fn lemma_failure_leaves_no_marker(world: World)
    requires
        !world.action_ok,
    ensures
        run(world).markers == world.markers,
        run(world).executions == 1 ==> run(world).outcome == Outcome::Failed(Failure::Action),
        run(world).outcome != Outcome::Succeeded,
{
    reveal_with_fuel(play, 7);
}

/// An action whose success may not be cached, or whose target declares no
/// source files, is always executed, and leaves no marker.
pub proof fn lemma_uncached_always_runs(world: World)
    requires
        !world.cacheable || world.sources == Some(false),
    ensures
        run(world).executions == 1,
        run(world).markers == world.markers,
        run(world).outcome == if world.action_ok {
            Outcome::Succeeded
        } else {
            Outcome::Failed(Failure::Action)
        },
{
    reveal_with_fuel(play, 7);
}

} // verus!
