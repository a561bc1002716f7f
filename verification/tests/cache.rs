use std::collections::HashSet;

use gentle::cache::{advance, cache_root, marker_path, Effect, Event, Failure, Outcome, Stage};

/// A world to play cached runs in: which markers exist, and how the steps
/// of a run end.
struct World {
    markers: HashSet<String>,
    cacheable: bool,
    sources: Option<bool>,
    listing_ok: bool,
    digest: Option<String>,
    action_ok: bool,
    marking_ok: bool,
    executions: usize,
}

impl World {
    fn new(digest: &str) -> World {
        World {
            markers: HashSet::new(),
            cacheable: true,
            sources: Some(true),
            listing_ok: true,
            digest: Some(String::from(digest)),
            action_ok: true,
            marking_ok: true,
            executions: 0,
        }
    }

    fn run(&mut self) -> Outcome {
        let mut stage = Stage::Start;
        let mut event = Event::Begin(self.cacheable);
        loop {
            let (next, effect) = advance(stage, event);
            stage = next;
            event = match effect {
                Effect::AskSources => match self.sources {
                    Some(declared) => Event::SourcesKnown(declared),
                    None => Event::Failed,
                },
                Effect::ListFiles => {
                    if self.listing_ok {
                        Event::Listed
                    } else {
                        Event::Failed
                    }
                }
                Effect::HashFiles => match &self.digest {
                    Some(hex) => Event::Hashed(hex.clone()),
                    None => Event::Failed,
                },
                Effect::CheckMarker(path) => Event::MarkerChecked(self.markers.contains(&path)),
                Effect::Run => {
                    self.executions += 1;
                    if self.action_ok {
                        Event::Ran
                    } else {
                        Event::Failed
                    }
                }
                Effect::CreateMarker(path) => {
                    if self.marking_ok {
                        self.markers.insert(path);
                        Event::Marked
                    } else {
                        Event::Failed
                    }
                }
                Effect::Finish(outcome) => {
                    assert_eq!(stage, Stage::Finished);
                    return outcome;
                }
                Effect::Rejected => panic!("the run was driven out of turn"),
            };
        }
    }
}

#[test]
fn marker_sits_under_cache_root() {
    assert_eq!(cache_root(), ".gentle_cache/successes");
    assert_eq!(marker_path("ab12"), ".gentle_cache/successes/ab12");
    assert_eq!(marker_path(""), ".gentle_cache/successes/");
}

#[test]
fn success_is_cached_and_skipped_next_time() {
    let mut world = World::new("h1");

    assert_eq!(world.run(), Outcome::Succeeded);
    assert_eq!(world.executions, 1);
    assert!(world.markers.contains(".gentle_cache/successes/h1"));
    assert_eq!(world.markers.len(), 1);

    assert_eq!(world.run(), Outcome::Skipped);
    assert_eq!(world.executions, 1);
    assert_eq!(world.markers.len(), 1);
}

#[test]
fn changed_input_runs_again() {
    let mut world = World::new("h1");
    world.run();
    world.digest = Some(String::from("h2"));

    assert_eq!(world.run(), Outcome::Succeeded);
    assert_eq!(world.executions, 2);
    assert!(world.markers.contains(".gentle_cache/successes/h2"));
}

#[test]
fn failed_action_leaves_no_marker() {
    let mut world = World::new("h1");
    world.action_ok = false;

    assert_eq!(world.run(), Outcome::Failed(Failure::Action));
    assert_eq!(world.executions, 1);
    assert!(world.markers.is_empty());

    world.action_ok = true;
    assert_eq!(world.run(), Outcome::Succeeded);
    assert_eq!(world.executions, 2);
}

#[test]
fn build_is_never_cached() {
    let mut world = World::new("h1");
    world.cacheable = false;

    assert_eq!(world.run(), Outcome::Succeeded);
    assert_eq!(world.run(), Outcome::Succeeded);
    assert_eq!(world.executions, 2);
    assert!(world.markers.is_empty());
}

#[test]
fn target_without_sources_is_never_cached() {
    let mut world = World::new("h1");
    world.sources = Some(false);

    assert_eq!(world.run(), Outcome::Succeeded);
    assert_eq!(world.run(), Outcome::Succeeded);
    assert_eq!(world.executions, 2);
    assert!(world.markers.is_empty());
}

#[test]
fn failures_before_the_action_do_not_execute_it() {
    let mut world = World::new("h1");
    world.sources = None;
    assert_eq!(world.run(), Outcome::Failed(Failure::Sources));

    let mut world = World::new("h1");
    world.listing_ok = false;
    assert_eq!(world.run(), Outcome::Failed(Failure::Listing));
    assert_eq!(world.executions, 0);

    let mut world = World::new("h1");
    world.digest = None;
    assert_eq!(world.run(), Outcome::Failed(Failure::Hashing));
    assert_eq!(world.executions, 0);
}

#[test]
fn marker_failure_is_reported() {
    let mut world = World::new("h1");
    world.marking_ok = false;

    assert_eq!(world.run(), Outcome::Failed(Failure::Marker));
    assert_eq!(world.executions, 1);
    assert!(world.markers.is_empty());
}

#[test]
fn events_out_of_turn_are_rejected() {
    assert_eq!(advance(Stage::Start, Event::Ran), (Stage::Start, Effect::Rejected));
    assert_eq!(advance(Stage::Listing, Event::Marked), (Stage::Listing, Effect::Rejected));
    assert_eq!(advance(Stage::Finished, Event::Begin(true)), (Stage::Finished, Effect::Rejected));
    assert_eq!(
        advance(Stage::Lookup(String::from("m")), Event::Failed),
        (Stage::Lookup(String::from("m")), Effect::Rejected)
    );
}

#[test]
fn steps_follow_each_other() {
    assert_eq!(advance(Stage::Start, Event::Begin(true)), (Stage::Sources, Effect::AskSources));
    assert_eq!(advance(Stage::Start, Event::Begin(false)), (Stage::Running(None), Effect::Run));
    assert_eq!(
        advance(Stage::Hashing, Event::Hashed(String::from("ff"))),
        (
            Stage::Lookup(String::from(".gentle_cache/successes/ff")),
            Effect::CheckMarker(String::from(".gentle_cache/successes/ff"))
        )
    );
    assert_eq!(
        advance(Stage::Running(Some(String::from("m"))), Event::Ran),
        (Stage::Marking, Effect::CreateMarker(String::from("m")))
    );
}

#[test]
fn marker_does_not_tell_actions_apart() {
    // The marker is named by the hash of the inputs alone: this run may be
    // a lint and the next a test of the same files.
    let mut world = World::new("h1");
    assert_eq!(world.run(), Outcome::Succeeded);
    assert_eq!(world.run(), Outcome::Skipped);
    assert_eq!(marker_path("h1"), marker_path("h1"));
    assert_eq!(world.executions, 1);
}
