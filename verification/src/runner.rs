//! The books of a task runner, and the signals it gives.
//!
//! Every task is queued, then running, then succeeded or failed, and never
//! goes back.  Whoever executes the tasks tells the runner of each step.
//! The runner refuses steps that may not be taken, and for each step it
//! accepts it tells its listener: one start for every task that runs, one
//! finish after it.

use vstd::prelude::*;
use crate::text::{chars_of, same_chars};

verus! {

/// Where a task stands.
#[derive(Debug, Clone, Copy, PartialEq, Eq)]
pub enum TaskState {
    Queued,
    Running,
    Succeeded,
    Failed,
}

/// A task that failed: its name and what went wrong.
#[derive(Debug, PartialEq, Eq)]
pub struct TaskFailure {
    pub name: String,
    pub error: String,
}

/// Why a task was not started.
#[derive(Debug, Clone, Copy, PartialEq, Eq)]
pub enum StartError {
    /// No task has this number.
    UnknownTask,
    /// The task is running or has ended.
    NotQueued,
    /// Another task of the same name is running.
    NameBusy,
}

/// Why the end of a task was not recorded.
#[derive(Debug, Clone, Copy, PartialEq, Eq)]
pub enum FinishError {
    /// No task has this number.
    UnknownTask,
    /// The task is not running.
    NotRunning,
}

/// What draining the runner found.
#[derive(Debug, PartialEq, Eq)]
pub enum Drained {
    /// Some task has not ended yet.
    Waiting,
    /// Every task ended and succeeded.
    AllSucceeded,
    /// Every task ended; this is the first that failed.
    Failed(TaskFailure),
}

/// A progress signal about the task with a number.
pub ghost enum Signal {
    Start(int),
    Finish(int),
}

/// A task as the ledger sees it.
pub ghost struct TaskView {
    pub name: Seq<char>,
    pub state: TaskState,
    pub error: Seq<char>,
}

/// What the ledger holds: the tasks in the order they were submitted, and
/// the signals in the order they were given.
pub ghost struct LedgerView {
    pub tasks: Seq<TaskView>,
    pub signals: Seq<Signal>,
}

struct Task {
    name: String,
    state: TaskState,
    error: String,
}

struct Books {
    tasks: Vec<Task>,
    signals: Ghost<Seq<Signal>>,
}

/// The books of a task runner: the tasks, and the signals given for them.
pub struct Ledger {
    books: Books,
}

/// The task that a signal is about.
pub open spec fn task_of(signal: Signal) -> int {
    match signal {
        Signal::Start(i) => i,
        Signal::Finish(i) => i,
    }
}

/// The test for signals about task `i`.
pub open spec fn about(i: int) -> spec_fn(Signal) -> bool {
    |s: Signal| task_of(s) == i
}

/// The signals about task `i`, in the order they were given.
pub open spec fn signals_of(signals: Seq<Signal>, i: int) -> Seq<Signal> {
    signals.filter(about(i))
}

/// The signals that a task in `state` has been given.
pub open spec fn signals_due(state: TaskState, i: int) -> Seq<Signal> {
    match state {
        TaskState::Queued => Seq::<Signal>::empty(),
        TaskState::Running => seq![Signal::Start(i)],
        TaskState::Succeeded => seq![Signal::Start(i), Signal::Finish(i)],
        TaskState::Failed => seq![Signal::Start(i), Signal::Finish(i)],
    }
}

/// Whether a task has ended.
pub open spec fn has_ended(state: TaskState) -> bool {
    state == TaskState::Succeeded || state == TaskState::Failed
}

/// Whether every task has ended.
pub open spec fn all_ended(tasks: Seq<TaskView>) -> bool {
    forall|i: int| 0 <= i < tasks.len() ==> has_ended((#[trigger] tasks[i]).state)
}

/// Whether every task has succeeded.
pub open spec fn all_succeeded(tasks: Seq<TaskView>) -> bool {
    forall|i: int| 0 <= i < tasks.len() ==> (#[trigger] tasks[i]).state == TaskState::Succeeded
}

/// Whether a running task has the name `name`.
pub open spec fn name_is_running(tasks: Seq<TaskView>, name: Seq<char>) -> bool {
    exists|i: int|
        0 <= i < tasks.len() && (#[trigger] tasks[i]).state == TaskState::Running && tasks[i].name
            == name
}

/// Whether `i` is the first task that failed.
pub open spec fn is_first_failure(tasks: Seq<TaskView>, i: int) -> bool {
    &&& 0 <= i < tasks.len()
    &&& tasks[i].state == TaskState::Failed
    &&& forall|e: int| 0 <= e < i ==> (#[trigger] tasks[e]).state != TaskState::Failed
}

/// Whether the first task that failed has this name and failed with this
/// error.
pub open spec fn first_failure_is(tasks: Seq<TaskView>, name: Seq<char>, error: Seq<char>) -> bool {
    exists|i: int|
        #![trigger tasks[i]]
        is_first_failure(tasks, i) && tasks[i].name == name && tasks[i].error == error
}

/// What every ledger keeps to: each signal is about a task, each task was
/// given exactly the signals due to its state, in order, and no two
/// running tasks have one name.
pub open spec fn is_consistent(v: LedgerView) -> bool {
    &&& forall|k: int| 0 <= k < v.signals.len() ==> 0 <= task_of(#[trigger] v.signals[k]) < v.tasks.len()
    &&& forall|i: int|
        0 <= i < v.tasks.len() ==> #[trigger] signals_of(v.signals, i) == signals_due(
            v.tasks[i].state,
            i,
        )
    &&& forall|i: int, e: int|
        0 <= i < e < v.tasks.len() && (#[trigger] v.tasks[i]).state == TaskState::Running && (
        #[trigger] v.tasks[e]).state == TaskState::Running ==> v.tasks[i].name != v.tasks[e].name
}

impl Task {
    spec fn view(&self) -> TaskView {
        TaskView { name: self.name@, state: self.state, error: self.error@ }
    }
}

impl Books {
    spec fn view(&self) -> LedgerView {
        LedgerView { tasks: self.tasks@.map_values(|t: Task| t.view()), signals: self.signals@ }
    }

    fn empty() -> (b: Books)
        ensures
            b.view() == (LedgerView {
                tasks: Seq::<TaskView>::empty(),
                signals: Seq::<Signal>::empty(),
            }),
    {
        let b = Books { tasks: Vec::new(), signals: Ghost(Seq::empty()) };
        assert(b.view().tasks =~= Seq::<TaskView>::empty());
        b
    }
}

impl View for Ledger {
    type V = LedgerView;

    closed spec fn view(&self) -> LedgerView {
        self.books.view()
    }
}

/// A signal about another task changes nothing for task `i`; a signal
/// about task `i` is added to its signals.
pub proof fn lemma_signal_added(signals: Seq<Signal>, signal: Signal, i: int)
    ensures
        signals_of(signals.push(signal), i) == if task_of(signal) == i {
            signals_of(signals, i).push(signal)
        } else {
            signals_of(signals, i)
        },
{
    signals.lemma_filter_push(signal, about(i));
}

/// A task that no signal is about was given no signals.
proof fn lemma_no_signals(signals: Seq<Signal>, i: int)
    requires
        forall|k: int| 0 <= k < signals.len() ==> task_of(#[trigger] signals[k]) != i,
    ensures
        signals_of(signals, i) == Seq::<Signal>::empty(),
    decreases signals.len(),
{
    if signals.len() == 0 {
        signals.lemma_filter_len(about(i));
        assert(signals_of(signals, i) =~= Seq::<Signal>::empty());
    } else {
        let rest = signals.drop_last();
        assert forall|k: int| 0 <= k < rest.len() implies task_of(#[trigger] rest[k]) != i by {
            assert(rest[k] == signals[k]);
        }
        lemma_no_signals(rest, i);
        assert(task_of(signals[signals.len() - 1]) != i);
        lemma_signal_added(rest, signals.last(), i);
        assert(rest.push(signals.last()) =~= signals);
    }
}

/// Whether two strings hold the same text.
fn same_text(a: &String, b: &String) -> (r: bool)
    ensures
        r == (a@ == b@),
{
    let x = chars_of(a.as_str());
    let y = chars_of(b.as_str());
    same_chars(&x, &y)
}

impl Ledger {
    #[verifier::type_invariant]
    spec fn consistent(self) -> bool {
        is_consistent(self.books.view())
    }

    /// A ledger without tasks.
    pub fn new() -> (r: Ledger)
        ensures
            r@.tasks.len() == 0,
            r@.signals.len() == 0,
            is_consistent(r@),
    {
        Ledger { books: Books::empty() }
    }

    /// Enters a task of the given name, queued, and returns its number.
    pub fn submit(&mut self, name: &str) -> (id: usize)
        ensures
            id == old(self)@.tasks.len(),
            final(self)@.tasks == old(self)@.tasks.push(
                TaskView { name: name@, state: TaskState::Queued, error: Seq::<char>::empty() },
            ),
            final(self)@.signals == old(self)@.signals,
            is_consistent(final(self)@),
    {
        proof {
            use_type_invariant(&*self);
        }
        let mut books = Books::empty();
        std::mem::swap(&mut self.books, &mut books);
        let ghost before = books.view();
        let id = books.tasks.len();
        books.tasks.push(Task { name: name.to_owned(), state: TaskState::Queued, error: String::new() });
        proof {
            let after = books.view();
            let added = TaskView {
                name: name@,
                state: TaskState::Queued,
                error: Seq::<char>::empty(),
            };
            assert(after.tasks =~= before.tasks.push(added));
            lemma_no_signals(before.signals, id as int);
            assert forall|i: int| 0 <= i < after.tasks.len() implies #[trigger] signals_of(
                after.signals,
                i,
            ) == signals_due(after.tasks[i].state, i) by {
                if i < id {
                    assert(after.tasks[i] == before.tasks[i]);
                }
            }
        }
        self.books = books;
        id
    }

    /// Records that the task begins to run, which calls for a start
    /// signal, unless the task may not begin.
    pub fn start(&mut self, id: usize) -> (r: Result<(), StartError>)
        ensures
            is_consistent(final(self)@),
            match r {
                Ok(_) => {
                    &&& id < old(self)@.tasks.len()
                    &&& old(self)@.tasks[id as int].state == TaskState::Queued
                    &&& !name_is_running(old(self)@.tasks, old(self)@.tasks[id as int].name)
                    &&& final(self)@.tasks == old(self)@.tasks.update(
                        id as int,
                        TaskView { state: TaskState::Running, ..old(self)@.tasks[id as int] },
                    )
                    &&& final(self)@.signals == old(self)@.signals.push(Signal::Start(id as int))
                },
                Err(e) => {
                    &&& final(self)@ == old(self)@
                    &&& e == StartError::UnknownTask <==> id >= old(self)@.tasks.len()
                    &&& e == StartError::NotQueued <==> id < old(self)@.tasks.len() && old(
                        self,
                    )@.tasks[id as int].state != TaskState::Queued
                    &&& e == StartError::NameBusy <==> id < old(self)@.tasks.len() && old(
                        self,
                    )@.tasks[id as int].state == TaskState::Queued && name_is_running(
                        old(self)@.tasks,
                        old(self)@.tasks[id as int].name,
                    )
                },
            },
    {
        proof {
            use_type_invariant(&*self);
        }
        if id >= self.books.tasks.len() {
            return Err(StartError::UnknownTask);
        }
        match self.books.tasks[id].state {
            TaskState::Queued => {},
            _ => {
                return Err(StartError::NotQueued);
            },
        }
        let ghost before = self.books.view();
        let mut i: usize = 0;
        while i < self.books.tasks.len()
            invariant
                i <= self.books.tasks.len(),
                id < self.books.tasks.len(),
                before == self.books.view(),
                *self == *old(self),
                is_consistent(before),
                before.tasks[id as int].state == TaskState::Queued,
                forall|k: int|
                    0 <= k < i ==> !((#[trigger] before.tasks[k]).state == TaskState::Running
                        && before.tasks[k].name == before.tasks[id as int].name),
            decreases self.books.tasks.len() - i,
        {
            let running = match self.books.tasks[i].state {
                TaskState::Running => true,
                _ => false,
            };
            if running && same_text(&self.books.tasks[i].name, &self.books.tasks[id].name) {
                assert(before.tasks[i as int].state == TaskState::Running);
                assert(name_is_running(before.tasks, before.tasks[id as int].name));
                return Err(StartError::NameBusy);
            }
            i += 1;
        }
        assert(!name_is_running(before.tasks, before.tasks[id as int].name));
        let mut books = Books::empty();
        std::mem::swap(&mut self.books, &mut books);
        let name = books.tasks[id].name.clone();
        let error = books.tasks[id].error.clone();
        books.tasks.set(id, Task { name, state: TaskState::Running, error });
        proof {
            books.signals@ = books.signals@.push(Signal::Start(id as int));
            let after = books.view();
            assert(after.tasks =~= before.tasks.update(
                id as int,
                TaskView { state: TaskState::Running, ..before.tasks[id as int] },
            ));
            assert forall|i: int| 0 <= i < after.tasks.len() implies #[trigger] signals_of(
                after.signals,
                i,
            ) == signals_due(after.tasks[i].state, i) by {
                lemma_signal_added(before.signals, Signal::Start(id as int), i);
                assert(signals_of(before.signals, i) == signals_due(before.tasks[i].state, i));
                if i == id {
                    assert(Seq::<Signal>::empty().push(Signal::Start(i)) =~= seq![Signal::Start(i)]);
                }
            }
            assert forall|k: int| 0 <= k < after.signals.len() implies 0 <= task_of(
                #[trigger] after.signals[k],
            ) < after.tasks.len() by {
                if k < before.signals.len() {
                    assert(after.signals[k] == before.signals[k]);
                }
            }
            assert forall|i: int, e: int|
                0 <= i < e < after.tasks.len() && (#[trigger] after.tasks[i]).state
                    == TaskState::Running && (#[trigger] after.tasks[e]).state
                    == TaskState::Running implies after.tasks[i].name != after.tasks[e].name by {
                if i == id {
                    assert(before.tasks[e].state == TaskState::Running);
                } else if e == id {
                    assert(before.tasks[i].state == TaskState::Running);
                } else {
                    assert(before.tasks[i].state == TaskState::Running);
                    assert(before.tasks[e].state == TaskState::Running);
                }
            }
        }
        self.books = books;
        Ok(())
    }

    /// Records that the task ended, with success or with an error, which
    /// calls for a finish signal, unless the task is not running.
    pub fn finish(&mut self, id: usize, outcome: Result<(), String>) -> (r: Result<(), FinishError>)
        ensures
            is_consistent(final(self)@),
            match r {
                Ok(_) => {
                    &&& id < old(self)@.tasks.len()
                    &&& old(self)@.tasks[id as int].state == TaskState::Running
                    &&& final(self)@.tasks == old(self)@.tasks.update(
                        id as int,
                        match outcome {
                            Ok(_) => TaskView {
                                state: TaskState::Succeeded,
                                ..old(self)@.tasks[id as int]
                            },
                            Err(error) => TaskView {
                                state: TaskState::Failed,
                                error: error@,
                                ..old(self)@.tasks[id as int]
                            },
                        },
                    )
                    &&& final(self)@.signals == old(self)@.signals.push(Signal::Finish(id as int))
                },
                Err(e) => {
                    &&& final(self)@ == old(self)@
                    &&& e == FinishError::UnknownTask <==> id >= old(self)@.tasks.len()
                    &&& e == FinishError::NotRunning <==> id < old(self)@.tasks.len() && old(
                        self,
                    )@.tasks[id as int].state != TaskState::Running
                },
            },
    {
        proof {
            use_type_invariant(&*self);
        }
        if id >= self.books.tasks.len() {
            return Err(FinishError::UnknownTask);
        }
        match self.books.tasks[id].state {
            TaskState::Running => {},
            _ => {
                return Err(FinishError::NotRunning);
            },
        }
        let ghost before = self.books.view();
        let mut books = Books::empty();
        std::mem::swap(&mut self.books, &mut books);
        let name = books.tasks[id].name.clone();
        let ended = match outcome {
            Ok(_) => {
                let error = books.tasks[id].error.clone();
                Task { name, state: TaskState::Succeeded, error }
            },
            Err(error) => Task { name, state: TaskState::Failed, error },
        };
        let ghost ended_view = ended.view();
        books.tasks.set(id, ended);
        proof {
            books.signals@ = books.signals@.push(Signal::Finish(id as int));
            let after = books.view();
            assert(after.tasks =~= before.tasks.update(id as int, ended_view));
            assert forall|i: int| 0 <= i < after.tasks.len() implies #[trigger] signals_of(
                after.signals,
                i,
            ) == signals_due(after.tasks[i].state, i) by {
                lemma_signal_added(before.signals, Signal::Finish(id as int), i);
                assert(signals_of(before.signals, i) == signals_due(before.tasks[i].state, i));
                if i == id {
                    assert(seq![Signal::Start(i)].push(Signal::Finish(i)) =~= seq![
                        Signal::Start(i),
                        Signal::Finish(i),
                    ]);
                }
            }
            assert forall|k: int| 0 <= k < after.signals.len() implies 0 <= task_of(
                #[trigger] after.signals[k],
            ) < after.tasks.len() by {
                if k < before.signals.len() {
                    assert(after.signals[k] == before.signals[k]);
                }
            }
            assert forall|i: int, e: int|
                0 <= i < e < after.tasks.len() && (#[trigger] after.tasks[i]).state
                    == TaskState::Running && (#[trigger] after.tasks[e]).state
                    == TaskState::Running implies after.tasks[i].name != after.tasks[e].name by {
                assert(before.tasks[i].state == TaskState::Running);
                assert(before.tasks[e].state == TaskState::Running);
            }
        }
        self.books = books;
        Ok(())
    }

    /// Where the task with this number stands, if there is one.
    pub fn state(&self, id: usize) -> (r: Option<TaskState>)
        ensures
            r == if id < self@.tasks.len() {
                Some(self@.tasks[id as int].state)
            } else {
                None
            },
    {
        if id < self.books.tasks.len() {
            Some(self.books.tasks[id].state)
        } else {
            None
        }
    }

    /// The name of the task with this number, if there is one.
    pub fn name(&self, id: usize) -> (r: Option<String>)
        ensures
            match r {
                Some(name) => id < self@.tasks.len() && name@ == self@.tasks[id as int].name,
                None => id >= self@.tasks.len(),
            },
    {
        if id < self.books.tasks.len() {
            Some(self.books.tasks[id].name.clone())
        } else {
            None
        }
    }

    /// What has become of the tasks: whether some have not ended, and if
    /// all have, whether all succeeded or which was the first to fail.
    ///
    /// Once all tasks have ended, every one of them was given one start
    /// signal and, after it, one finish signal, whatever its outcome.
    pub fn drain(&self) -> (r: Drained)
        ensures
            is_consistent(self@),
            r is Waiting <==> !all_ended(self@.tasks),
            r is AllSucceeded <==> all_succeeded(self@.tasks),
            r matches Drained::Failed(failure) ==> first_failure_is(
                self@.tasks,
                failure.name@,
                failure.error@,
            ),
            !(r is Waiting) ==> forall|i: int|
                0 <= i < self@.tasks.len() ==> #[trigger] signals_of(self@.signals, i) == seq![
                    Signal::Start(i),
                    Signal::Finish(i),
                ],
    {
        proof {
            use_type_invariant(self);
        }
        let ghost tasks = self@.tasks;
        let mut first_failed: Option<usize> = None;
        let mut i: usize = 0;
        while i < self.books.tasks.len()
            invariant
                i <= self.books.tasks.len(),
                tasks == self.books.view().tasks,
                is_consistent(self.books.view()),
                forall|k: int| 0 <= k < i ==> has_ended((#[trigger] tasks[k]).state),
                match first_failed {
                    Some(f) => f < i && is_first_failure(tasks, f as int),
                    None => forall|k: int|
                        0 <= k < i ==> (#[trigger] tasks[k]).state == TaskState::Succeeded,
                },
            decreases self.books.tasks.len() - i,
        {
            match self.books.tasks[i].state {
                TaskState::Queued | TaskState::Running => {
                    assert(!has_ended(tasks[i as int].state));
                    return Drained::Waiting;
                },
                TaskState::Succeeded => {},
                TaskState::Failed => {
                    if first_failed.is_none() {
                        first_failed = Some(i);
                    }
                },
            }
            i += 1;
        }
        assert(all_ended(tasks));
        assert(first_failed is Some ==> !all_succeeded(tasks)) by {
            if let Some(f) = first_failed {
                assert(tasks[f as int].state == TaskState::Failed);
            }
        }
        assert(all_succeeded(tasks) ==> all_ended(tasks));
        assert forall|i: int| 0 <= i < tasks.len() implies #[trigger] signals_of(self@.signals, i)
            == seq![Signal::Start(i), Signal::Finish(i)] by {
            assert(has_ended(tasks[i].state));
            assert(signals_of(self@.signals, i) == signals_due(tasks[i].state, i));
        }
        match first_failed {
            Some(f) => {
                let task = &self.books.tasks[f];
                Drained::Failed(TaskFailure { name: task.name.clone(), error: task.error.clone() })
            },
            None => Drained::AllSucceeded,
        }
    }

    /// The number of tasks submitted so far.
    pub fn len(&self) -> (n: usize)
        ensures
            n == self@.tasks.len(),
    {
        self.books.tasks.len()
    }
}

/// Hears of every task when it starts and when it finishes.
pub trait ProgressListener {
    /// The task `name` starts.
    fn on_start(&mut self, name: &str);

    /// The task `name` has finished.
    fn on_finish(&mut self, name: &str);
}

/// A listener that does nothing.
pub struct NullProgressListener;

impl ProgressListener for NullProgressListener {
    fn on_start(&mut self, name: &str) {
    }

    fn on_finish(&mut self, name: &str) {
    }
}

/// A ledger together with the listener that is told of every signal the
/// ledger records.
pub struct Runner<L: ProgressListener> {
    ledger: Ledger,
    listener: L,
}

impl<L: ProgressListener> View for Runner<L> {
    type V = LedgerView;

    closed spec fn view(&self) -> LedgerView {
        self.ledger@
    }
}

impl<L: ProgressListener> Runner<L> {
    /// A runner without tasks that tells `listener`.
    pub fn new(listener: L) -> (r: Runner<L>)
        ensures
            r@.tasks.len() == 0,
            r@.signals.len() == 0,
            is_consistent(r@),
    {
        Runner { ledger: Ledger::new(), listener }
    }

    /// The number of tasks submitted so far.
    pub fn len(&self) -> (n: usize)
        ensures
            n == self@.tasks.len(),
    {
        self.ledger.len()
    }

    /// The listener that the runner tells.
    pub closed spec fn told(&self) -> L {
        self.listener
    }

    /// The listener.
    pub fn listener(&self) -> (l: &L)
        ensures
            *l == self.told(),
    {
        &self.listener
    }

    /// Gives the listener back.
    pub fn into_listener(self) -> (l: L)
        ensures
            l == self.told(),
    {
        self.listener
    }

    /// Enters a task of the given name, queued, and returns its number.
    /// No signal is given.
    pub fn submit(&mut self, name: &str) -> (id: usize)
        ensures
            id == old(self)@.tasks.len(),
            final(self)@.tasks == old(self)@.tasks.push(
                TaskView { name: name@, state: TaskState::Queued, error: Seq::<char>::empty() },
            ),
            final(self)@.signals == old(self)@.signals,
            is_consistent(final(self)@),
    {
        self.ledger.submit(name)
    }

    /// Records that the task begins to run and tells the listener that it
    /// starts, unless the task may not begin; then nothing changes and the
    /// listener is not told.
    pub fn start(&mut self, id: usize) -> (r: Result<(), StartError>)
        ensures
            is_consistent(final(self)@),
            match r {
                Ok(_) => {
                    &&& id < old(self)@.tasks.len()
                    &&& old(self)@.tasks[id as int].state == TaskState::Queued
                    &&& !name_is_running(old(self)@.tasks, old(self)@.tasks[id as int].name)
                    &&& final(self)@.tasks == old(self)@.tasks.update(
                        id as int,
                        TaskView { state: TaskState::Running, ..old(self)@.tasks[id as int] },
                    )
                    &&& final(self)@.signals == old(self)@.signals.push(Signal::Start(id as int))
                },
                Err(e) => {
                    &&& final(self)@ == old(self)@
                    &&& e == StartError::UnknownTask <==> id >= old(self)@.tasks.len()
                    &&& e == StartError::NotQueued <==> id < old(self)@.tasks.len() && old(
                        self,
                    )@.tasks[id as int].state != TaskState::Queued
                    &&& e == StartError::NameBusy <==> id < old(self)@.tasks.len() && old(
                        self,
                    )@.tasks[id as int].state == TaskState::Queued && name_is_running(
                        old(self)@.tasks,
                        old(self)@.tasks[id as int].name,
                    )
                },
            },
    {
        match self.ledger.start(id) {
            Ok(_) => {
                match self.ledger.name(id) {
                    Some(name) => {
                        self.listener.on_start(name.as_str());
                    },
                    None => {},
                }
                Ok(())
            },
            Err(e) => Err(e),
        }
    }

    /// Records that the task ended, with success or with an error, and
    /// tells the listener that it has finished, unless the task is not
    /// running; then nothing changes and the listener is not told.
    pub fn finish(&mut self, id: usize, outcome: Result<(), String>) -> (r: Result<(), FinishError>)
        ensures
            is_consistent(final(self)@),
            match r {
                Ok(_) => {
                    &&& id < old(self)@.tasks.len()
                    &&& old(self)@.tasks[id as int].state == TaskState::Running
                    &&& final(self)@.tasks == old(self)@.tasks.update(
                        id as int,
                        match outcome {
                            Ok(_) => TaskView {
                                state: TaskState::Succeeded,
                                ..old(self)@.tasks[id as int]
                            },
                            Err(error) => TaskView {
                                state: TaskState::Failed,
                                error: error@,
                                ..old(self)@.tasks[id as int]
                            },
                        },
                    )
                    &&& final(self)@.signals == old(self)@.signals.push(Signal::Finish(id as int))
                },
                Err(e) => {
                    &&& final(self)@ == old(self)@
                    &&& e == FinishError::UnknownTask <==> id >= old(self)@.tasks.len()
                    &&& e == FinishError::NotRunning <==> id < old(self)@.tasks.len() && old(
                        self,
                    )@.tasks[id as int].state != TaskState::Running
                },
            },
    {
        match self.ledger.finish(id, outcome) {
            Ok(_) => {
                match self.ledger.name(id) {
                    Some(name) => {
                        self.listener.on_finish(name.as_str());
                    },
                    None => {},
                }
                Ok(())
            },
            Err(e) => Err(e),
        }
    }

    /// Where the task with this number stands, if there is one.
    pub fn state(&self, id: usize) -> (r: Option<TaskState>)
        ensures
            r == if id < self@.tasks.len() {
                Some(self@.tasks[id as int].state)
            } else {
                None
            },
    {
        self.ledger.state(id)
    }

    /// The name of the task with this number, if there is one.
    pub fn name(&self, id: usize) -> (r: Option<String>)
        ensures
            match r {
                Some(name) => id < self@.tasks.len() && name@ == self@.tasks[id as int].name,
                None => id >= self@.tasks.len(),
            },
    {
        self.ledger.name(id)
    }

    /// What has become of the tasks: whether some have not ended, and if
    /// all have, whether all succeeded or which was the first to fail.
    ///
    /// Once all tasks have ended, every one of them was given one start
    /// signal and, after it, one finish signal, whatever its outcome.
    pub fn drain(&self) -> (r: Drained)
        ensures
            is_consistent(self@),
            r is Waiting <==> !all_ended(self@.tasks),
            r is AllSucceeded <==> all_succeeded(self@.tasks),
            r matches Drained::Failed(failure) ==> first_failure_is(
                self@.tasks,
                failure.name@,
                failure.error@,
            ),
            !(r is Waiting) ==> forall|i: int|
                0 <= i < self@.tasks.len() ==> #[trigger] signals_of(self@.signals, i) == seq![
                    Signal::Start(i),
                    Signal::Finish(i),
                ],
    {
        self.ledger.drain()
    }
}

} // verus!
