use std::collections::HashSet;

use gentle::action::{should_run, Action};
use gentle::cache::{advance, Effect, Event, Outcome, Stage};
use gentle::file_selector::{EntryKind, FileSelector, TreeEntry};
use gentle::hash_files::{hash_files, to_hex, SourceFile};
use gentle::progress::SlotPool;
use gentle::runner::{Drained, ProgressListener, Runner};
use gentle::targets::{targets, Discovered, Manifests, Visited};

/// Shows tasks in slots and keeps what it hears.
struct Display {
    pool: SlotPool,
    starts: Vec<String>,
    finishes: Vec<String>,
}

impl ProgressListener for Display {
    fn on_start(&mut self, name: &str) {
        self.pool.on_start(name);
        self.starts.push(String::from(name));
    }

    fn on_finish(&mut self, name: &str) {
        assert!(self.pool.on_finish(name).is_some());
        self.finishes.push(String::from(name));
    }
}

/// The files of a small tree, with what they hold.
fn tree() -> Vec<(&'static str, &'static [u8])> {
    vec![
        ("./a/Cargo.toml", b"[package]\nname = \"a\"\n"),
        ("./a/src/lib.rs", b"pub fn a() {}\n"),
        ("./b/go.mod", b"module b\n"),
        ("./b/main.go", b"package main\n"),
    ]
}

fn walk() -> Vec<Visited> {
    let none = Manifests { dockerfile: false, go_mod: false, cargo_toml: false };
    vec![
        Visited { path: String::from("./"), kind: EntryKind::Directory, manifests: none },
        Visited {
            path: String::from("./a"),
            kind: EntryKind::Directory,
            manifests: Manifests { cargo_toml: true, ..none },
        },
        Visited { path: String::from("./a/src"), kind: EntryKind::Directory, manifests: none },
        Visited {
            path: String::from("./b"),
            kind: EntryKind::Directory,
            manifests: Manifests { go_mod: true, ..none },
        },
    ]
}

fn sources(target: &Discovered) -> Option<FileSelector> {
    match target {
        Discovered::RustCargo(t) => t.src_files(Vec::new()).unwrap(),
        _ => None,
    }
}

fn digest(selector: &FileSelector) -> Option<String> {
    let entries: Vec<TreeEntry> = tree()
        .iter()
        .map(|(path, _)| TreeEntry { path: String::from(*path), kind: EntryKind::File })
        .collect();
    let listed = selector.list(&entries).ok()?;
    let files: Vec<SourceFile> = tree()
        .iter()
        .filter(|(path, _)| listed.iter().any(|l| l == path))
        .map(|(path, contents)| SourceFile {
            path: String::from(*path),
            contents: contents.to_vec(),
        })
        .collect();
    Some(to_hex(&hash_files(&files)))
}

/// Runs the action on the target the way a runner does, and says whether
/// the action was executed.
fn run_cached(
    action: &Action,
    target: &Discovered,
    markers: &mut HashSet<String>,
) -> (Outcome, bool) {
    let mut executed = false;
    let mut selector = None;
    let mut stage = Stage::Start;
    let mut event = Event::Begin(action.can_cache_success());
    loop {
        let (next, effect) = advance(stage, event);
        stage = next;
        event = match effect {
            Effect::AskSources => {
                selector = sources(target);
                Event::SourcesKnown(selector.is_some())
            }
            Effect::ListFiles => Event::Listed,
            Effect::HashFiles => match digest(selector.as_ref().unwrap()) {
                Some(hex) => Event::Hashed(hex),
                None => Event::Failed,
            },
            Effect::CheckMarker(path) => Event::MarkerChecked(markers.contains(&path)),
            Effect::Run => {
                executed = true;
                Event::Ran
            }
            Effect::CreateMarker(path) => {
                markers.insert(path);
                Event::Marked
            }
            Effect::Finish(outcome) => return (outcome, executed),
            Effect::Rejected => panic!("the run was driven out of turn"),
        };
    }
}

#[test]
fn two_targets_one_cached() {
    let action = Action::Test;
    let found = targets(&walk());
    let addresses: Vec<String> = found.iter().map(|t| t.to_string()).collect();
    assert_eq!(addresses, vec!["//a:rust_crate", "//b:go_mod"]);

    let expected = to_hex(&hash_files(&vec![
        SourceFile { path: String::from("./a/Cargo.toml"), contents: tree()[0].1.to_vec() },
        SourceFile { path: String::from("./a/src/lib.rs"), contents: tree()[1].1.to_vec() },
    ]));
    let marker = format!(".gentle_cache/successes/{expected}");
    let mut markers: HashSet<String> = HashSet::new();

    for round in 0..2 {
        let mut runner = Runner::new(Display {
            pool: SlotPool::new(),
            starts: Vec::new(),
            finishes: Vec::new(),
        });
        let mut executed = Vec::new();
        for target in &found {
            let address = target.to_string();
            assert!(should_run(&address, &Vec::new(), &None));
            let name = action.task_name(&address);
            let id = runner.submit(&name);
            runner.start(id).unwrap();
            let (outcome, ran) = run_cached(&action, target, &mut markers);
            if ran {
                executed.push(address);
            }
            runner.finish(id, Ok(())).unwrap();
            assert!(outcome == Outcome::Succeeded || outcome == Outcome::Skipped);
        }

        assert_eq!(runner.drain(), Drained::AllSucceeded);
        let display = runner.into_listener();
        assert_eq!(display.starts, vec!["test //a:rust_crate", "test //b:go_mod"]);
        assert_eq!(display.finishes, display.starts);
        assert_eq!(display.pool.len(), 1);
        if round == 0 {
            assert_eq!(executed, vec!["//a:rust_crate", "//b:go_mod"]);
        } else {
            assert_eq!(executed, vec!["//b:go_mod"]);
        }
        assert_eq!(markers.len(), 1);
        assert!(markers.contains(&marker));
    }
}
