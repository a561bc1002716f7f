use gentle::runner::{
    Drained, FinishError, Ledger, NullProgressListener, ProgressListener, Runner, StartError,
    TaskFailure, TaskState,
};

/// Keeps what it hears, in order.
struct Recorder {
    heard: Vec<String>,
}

impl ProgressListener for Recorder {
    fn on_start(&mut self, name: &str) {
        self.heard.push(format!("start {name}"));
    }

    fn on_finish(&mut self, name: &str) {
        self.heard.push(format!("finish {name}"));
    }
}

fn quiet() -> Runner<NullProgressListener> {
    Runner::new(NullProgressListener)
}

#[test]
fn tasks_go_from_queued_to_ended() {
    let mut runner = quiet();
    let id = runner.submit("test //a:rust_crate");

    assert_eq!(id, 0);
    assert_eq!(runner.len(), 1);
    assert_eq!(runner.state(id), Some(TaskState::Queued));
    assert_eq!(runner.name(id), Some(String::from("test //a:rust_crate")));
    assert_eq!(runner.start(id), Ok(()));
    assert_eq!(runner.state(id), Some(TaskState::Running));
    assert_eq!(runner.finish(id, Ok(())), Ok(()));
    assert_eq!(runner.state(id), Some(TaskState::Succeeded));
    assert_eq!(runner.drain(), Drained::AllSucceeded);
}

#[test]
fn no_task_goes_back() {
    let mut runner = quiet();
    let id = runner.submit("t");

    assert_eq!(runner.finish(id, Ok(())), Err(FinishError::NotRunning));
    assert_eq!(runner.start(id), Ok(()));
    assert_eq!(runner.start(id), Err(StartError::NotQueued));
    assert_eq!(runner.finish(id, Err(String::from("boom"))), Ok(()));
    assert_eq!(runner.finish(id, Ok(())), Err(FinishError::NotRunning));
    assert_eq!(runner.start(id), Err(StartError::NotQueued));
    assert_eq!(runner.state(id), Some(TaskState::Failed));
}

#[test]
fn unknown_tasks_are_refused() {
    let mut runner = quiet();

    assert_eq!(runner.start(0), Err(StartError::UnknownTask));
    assert_eq!(runner.finish(3, Ok(())), Err(FinishError::UnknownTask));
    assert_eq!(runner.state(0), None);
    assert_eq!(runner.name(0), None);
    assert_eq!(runner.drain(), Drained::AllSucceeded);
}

#[test]
fn one_name_runs_once_at_a_time() {
    let mut runner = quiet();
    let first = runner.submit("same");
    let second = runner.submit("same");
    let other = runner.submit("other");

    assert_eq!(runner.start(first), Ok(()));
    assert_eq!(runner.start(second), Err(StartError::NameBusy));
    assert_eq!(runner.start(other), Ok(()));
    assert_eq!(runner.finish(first, Ok(())), Ok(()));
    assert_eq!(runner.start(second), Ok(()));
}

#[test]
fn drain_waits_for_every_task() {
    let mut runner = quiet();
    let a = runner.submit("a");
    let b = runner.submit("b");

    assert_eq!(runner.drain(), Drained::Waiting);
    runner.start(a).unwrap();
    runner.finish(a, Ok(())).unwrap();
    assert_eq!(runner.drain(), Drained::Waiting);
    runner.start(b).unwrap();
    assert_eq!(runner.drain(), Drained::Waiting);
    runner.finish(b, Ok(())).unwrap();
    assert_eq!(runner.drain(), Drained::AllSucceeded);
}

#[test]
fn one_failure_among_many_is_reported() {
    let n = 7;
    let k = 4;
    let mut runner = quiet();
    let mut finished = 0;
    let ids: Vec<usize> = (0..n).map(|i| runner.submit(&format!("task {i}"))).collect();
    for id in &ids {
        runner.start(*id).unwrap();
    }
    // The tasks end in another order than they began.
    for id in ids.iter().rev() {
        let outcome = if *id == k { Err(String::from("exit status 1")) } else { Ok(()) };
        runner.finish(*id, outcome).unwrap();
        finished += 1;
    }

    assert_eq!(finished, n);
    assert_eq!(
        runner.drain(),
        Drained::Failed(TaskFailure {
            name: String::from("task 4"),
            error: String::from("exit status 1"),
        })
    );
}

#[test]
fn first_failure_in_submission_order_is_reported() {
    let mut runner = quiet();
    let a = runner.submit("a");
    let b = runner.submit("b");
    let c = runner.submit("c");
    for id in [a, b, c] {
        runner.start(id).unwrap();
    }
    runner.finish(c, Err(String::from("late"))).unwrap();
    runner.finish(b, Err(String::from("early"))).unwrap();
    runner.finish(a, Ok(())).unwrap();

    assert_eq!(
        runner.drain(),
        Drained::Failed(TaskFailure { name: String::from("b"), error: String::from("early") })
    );
}

#[test]
fn listener_hears_one_start_and_one_finish_for_each_task() {
    let mut runner = Runner::new(Recorder { heard: Vec::new() });
    let a = runner.submit("a");
    let b = runner.submit("b");
    let c = runner.submit("c");
    assert!(runner.listener().heard.is_empty());

    runner.start(b).unwrap();
    runner.start(a).unwrap();
    runner.finish(b, Err(String::from("boom"))).unwrap();
    runner.start(c).unwrap();
    runner.finish(c, Ok(())).unwrap();
    runner.finish(a, Ok(())).unwrap();

    assert_eq!(
        runner.drain(),
        Drained::Failed(TaskFailure { name: String::from("b"), error: String::from("boom") })
    );
    let heard = runner.into_listener().heard;
    assert_eq!(heard, vec!["start b", "start a", "finish b", "start c", "finish c", "finish a"]);
    for name in ["a", "b", "c"] {
        let start = format!("start {name}");
        let finish = format!("finish {name}");
        assert_eq!(heard.iter().filter(|h| **h == start).count(), 1);
        assert_eq!(heard.iter().filter(|h| **h == finish).count(), 1);
        let started = heard.iter().position(|h| *h == start).unwrap();
        let finished = heard.iter().position(|h| *h == finish).unwrap();
        assert!(started < finished);
    }
}

#[test]
fn refused_steps_are_not_told() {
    let mut runner = Runner::new(Recorder { heard: Vec::new() });
    let a = runner.submit("same");
    let b = runner.submit("same");

    assert_eq!(runner.finish(a, Ok(())), Err(FinishError::NotRunning));
    assert_eq!(runner.start(9), Err(StartError::UnknownTask));
    runner.start(a).unwrap();
    assert_eq!(runner.start(b), Err(StartError::NameBusy));
    assert_eq!(runner.start(a), Err(StartError::NotQueued));
    assert_eq!(runner.state(b), Some(TaskState::Queued));

    assert_eq!(runner.listener().heard, vec!["start same"]);
}

#[test]
fn ledger_keeps_books_without_a_listener() {
    let mut ledger = Ledger::new();
    let id = ledger.submit("t");

    assert_eq!(ledger.len(), 1);
    assert_eq!(ledger.drain(), Drained::Waiting);
    assert_eq!(ledger.start(id), Ok(()));
    assert_eq!(ledger.finish(id, Err(String::from("no"))), Ok(()));
    assert_eq!(ledger.state(id), Some(TaskState::Failed));
    assert_eq!(ledger.name(id), Some(String::from("t")));
    assert_eq!(
        ledger.drain(),
        Drained::Failed(TaskFailure { name: String::from("t"), error: String::from("no") })
    );
}
