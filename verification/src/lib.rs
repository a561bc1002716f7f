//! Core of a polyglot build and test orchestrator: path normalisation,
//! file selection, content hashing, the success cache and task bookkeeping.

pub mod text;
pub mod order;
pub mod path;
pub mod path_laws;
pub mod pattern;
pub mod file_selector;
pub mod selector_laws;
pub mod targets;
pub mod hash_files;
pub mod hash_laws;
pub mod lockfiles;
pub mod action;
pub mod cache;
pub mod cache_laws;
pub mod runner;
pub mod runner_laws;
pub mod progress;
pub mod timetable;
pub mod batch;
