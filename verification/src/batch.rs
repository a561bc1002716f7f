//! Progress for unattended runs: a line when a task starts and when it
//! finishes, a summary of what is running on request, and at the end a
//! report of the finished tasks, shortest first.

use vstd::prelude::*;
use crate::text::{append_chars, chars_of, decimal, decimal_text, string_of, text_views};
use crate::timetable::{
    Timed, TimedView, lookup, names_increase, put, table_put, table_take, timed_views, without,
};

verus! {

/// What `humantime::format_duration` writes for a duration of `nanos`
/// nanoseconds.
pub uninterp spec fn duration_text(nanos: u64) -> Seq<char>;

/// Calls `humantime::format_duration` on a duration of `nanos` nanoseconds
/// and collects what it displays.
///
/// Trusted: the text is the one that `duration_text` names.
#[verifier::external_body]
fn format_span(nanos: u64) -> (text: String)
    ensures
        text@ == duration_text(nanos),
{
    humantime::format_duration(std::time::Duration::from_nanos(nanos)).to_string()
}

/// The time from `since` to `now`, or none if `now` is the earlier.
pub open spec fn elapsed(since: u64, now: u64) -> u64 {
    if now >= since {
        (now - since) as u64
    } else {
        0
    }
}

/// The line that announces a run of `total` tasks.
pub open spec fn banner_line(total: nat) -> Seq<char> {
    "Running "@ + decimal_text(total) + " tasks"@
}

/// The line that tells of the start of a task.
pub open spec fn start_line(name: Seq<char>) -> Seq<char> {
    "Starting "@ + name
}

/// The line that tells of the end of a task and the time it took.
pub open spec fn finish_line(name: Seq<char>, took: u64) -> Seq<char> {
    "Finished "@ + name + " in "@ + duration_text(took)
}

/// The first line of a summary: how many tasks are running, and how many
/// of all have finished.
pub open spec fn summary_line(running: nat, finished: nat, total: nat) -> Seq<char> {
    "Running "@ + decimal_text(running) + ", finished "@ + decimal_text(finished) + " / "@
        + decimal_text(total)
}

/// The line of a summary for a running task: its name and how long it has
/// been running.
pub open spec fn running_line(task: TimedView, now: u64) -> Seq<char> {
    "  "@ + task.name + ": "@ + duration_text(elapsed(task.time, now))
}

/// The line of the report for a finished task: the time it took and its
/// name.
pub open spec fn report_line(task: TimedView) -> Seq<char> {
    "  "@ + duration_text(task.time) + ": "@ + task.name
}

/// The sorted list after `task` is put behind the last entry that took no
/// longer.
pub open spec fn slot_in(sorted: Seq<TimedView>, task: TimedView) -> Seq<TimedView>
    decreases sorted.len(),
{
    if sorted.len() == 0 {
        seq![task]
    } else if sorted.last().time <= task.time {
        sorted.push(task)
    } else {
        slot_in(sorted.drop_last(), task).push(sorted.last())
    }
}

/// The tasks in the order of the time they took, shortest first; tasks
/// that took the same time stay in the order they have.
pub open spec fn by_duration(tasks: Seq<TimedView>) -> Seq<TimedView>
    decreases tasks.len(),
{
    if tasks.len() == 0 {
        tasks
    } else {
        slot_in(by_duration(tasks.drop_last()), tasks.last())
    }
}

/// The lines of a summary for these running tasks.
pub open spec fn running_lines(tasks: Seq<TimedView>, now: u64) -> Seq<Seq<char>> {
    tasks.map_values(|t: TimedView| running_line(t, now))
}

/// The lines of a report for these tasks.
pub open spec fn task_lines(tasks: Seq<TimedView>) -> Seq<Seq<char>> {
    tasks.map_values(|t: TimedView| report_line(t))
}

/// The lines of a summary at time `now`: the counts, then the running
/// tasks in the order of their names.
pub open spec fn summary_lines(v: BatchView, now: u64) -> Seq<Seq<char>> {
    seq![summary_line(v.running.len(), v.finished.len(), v.total)] + running_lines(v.running, now)
}

/// The lines of the final report: a heading, then the finished tasks,
/// shortest first.
pub open spec fn report_lines(v: BatchView) -> Seq<Seq<char>> {
    seq!["Runtime report:"@] + task_lines(by_duration(v.finished))
}

/// The tasks at the indices `order`.
pub open spec fn picked(tasks: Seq<TimedView>, order: Seq<usize>) -> Seq<TimedView> {
    order.map_values(|i: usize| tasks[i as int])
}

/// Putting a task into a sorted list leaves alone every entry at or after
/// `pos` when all of them took longer.
proof fn lemma_slot_skips_later(sorted: Seq<TimedView>, task: TimedView, pos: int)
    requires
        0 <= pos <= sorted.len(),
        forall|p: int| pos <= p < sorted.len() ==> (#[trigger] sorted[p]).time > task.time,
    ensures
        slot_in(sorted, task) == slot_in(sorted.take(pos), task) + sorted.skip(pos),
    decreases sorted.len() - pos,
{
    if pos == sorted.len() {
        assert(sorted.take(pos) =~= sorted);
        assert(slot_in(sorted, task) + sorted.skip(pos) =~= slot_in(sorted, task));
    } else {
        let last = sorted.last();
        assert(sorted[sorted.len() - 1].time > task.time);
        let shorter = sorted.drop_last();
        assert forall|p: int| pos <= p < shorter.len() implies (#[trigger] shorter[p]).time
            > task.time by {
            assert(shorter[p] == sorted[p]);
        }
        lemma_slot_skips_later(shorter, task, pos);
        assert(shorter.take(pos) =~= sorted.take(pos));
        assert((slot_in(shorter.take(pos), task) + shorter.skip(pos)).push(last) =~= slot_in(
            sorted.take(pos),
            task,
        ) + sorted.skip(pos));
    }
}

/// Whether no task took longer than a task behind it.
pub open spec fn durations_ascend(tasks: Seq<TimedView>) -> bool {
    forall|i: int, e: int|
        0 <= i < e < tasks.len() ==> (#[trigger] tasks[i]).time <= (#[trigger] tasks[e]).time
}

/// Putting a task into a list keeps the list ascending and adds that task
/// and nothing else.
pub proof fn lemma_slot_in(sorted: Seq<TimedView>, task: TimedView)
    requires
        durations_ascend(sorted),
    ensures
        durations_ascend(slot_in(sorted, task)),
        slot_in(sorted, task).to_multiset() == sorted.to_multiset().insert(task),
    decreases sorted.len(),
{
    broadcast use vstd::seq_lib::group_to_multiset_ensures;

    let next = slot_in(sorted, task);
    if sorted.len() == 0 {
        assert(next =~= sorted.push(task));
    } else if sorted.last().time <= task.time {
        let n = sorted.len() as int;
        assert forall|i: int, e: int| 0 <= i < e < next.len() implies (#[trigger] next[i]).time <= (
        #[trigger] next[e]).time by {
            if e == n {
                if i < n - 1 {
                    assert(sorted[i].time <= sorted[n - 1].time);
                }
            }
        }
    } else {
        let rest = sorted.drop_last();
        let last = sorted.last();
        let n = sorted.len() as int;
        assert forall|i: int, e: int| 0 <= i < e < rest.len() implies (#[trigger] rest[i]).time <= (
        #[trigger] rest[e]).time by {
            assert(rest[i] == sorted[i] && rest[e] == sorted[e]);
        }
        lemma_slot_in(rest, task);
        let inner = slot_in(rest, task);
        assert(rest.push(last) =~= sorted);
        assert(next.to_multiset() =~= sorted.to_multiset().insert(task));
        assert forall|i: int, e: int| 0 <= i < e < next.len() implies (#[trigger] next[i]).time <= (
        #[trigger] next[e]).time by {
            if e < inner.len() {
                assert(next[i] == inner[i] && next[e] == inner[e]);
            } else {
                assert(next[i] == inner[i]);
                assert(inner.to_multiset().count(inner[i]) > 0);
                if inner[i] == task {
                } else {
                    assert(rest.to_multiset().count(inner[i]) > 0);
                    assert(rest.contains(inner[i]));
                    let k = choose|k: int| 0 <= k < rest.len() && rest[k] == inner[i];
                    assert(sorted[k].time <= sorted[n - 1].time);
                }
            }
        }
    }
}

/// The report lists every finished task once, and none took longer than
/// a task listed behind it.
pub proof fn lemma_by_duration(tasks: Seq<TimedView>)
    ensures
        durations_ascend(by_duration(tasks)),
        by_duration(tasks).to_multiset() == tasks.to_multiset(),
    decreases tasks.len(),
{
    broadcast use vstd::seq_lib::group_to_multiset_ensures;

    if tasks.len() > 0 {
        lemma_by_duration(tasks.drop_last());
        lemma_slot_in(by_duration(tasks.drop_last()), tasks.last());
        assert(tasks.drop_last().push(tasks.last()) =~= tasks);
    }
}

/// What the progress of an unattended run holds: the number of tasks of
/// the run, the running tasks with the times they started, and the
/// finished tasks with the times they took, both in the order of their
/// names.
pub ghost struct BatchView {
    pub total: nat,
    pub running: Seq<TimedView>,
    pub finished: Seq<TimedView>,
}

/// The progress of an unattended run.
pub struct ContinuousIntegrationProgress {
    held: Tables,
}

struct Tables {
    total: usize,
    running: Vec<Timed>,
    finished: Vec<Timed>,
}

impl Tables {
    spec fn view(&self) -> BatchView {
        BatchView {
            total: self.total as nat,
            running: timed_views(self.running@),
            finished: timed_views(self.finished@),
        }
    }

    fn empty() -> (t: Tables)
        ensures
            t.view() == (BatchView {
                total: 0,
                running: Seq::<TimedView>::empty(),
                finished: Seq::<TimedView>::empty(),
            }),
    {
        let t = Tables { total: 0, running: Vec::new(), finished: Vec::new() };
        assert(t.view().running =~= Seq::<TimedView>::empty());
        assert(t.view().finished =~= Seq::<TimedView>::empty());
        t
    }
}

impl View for ContinuousIntegrationProgress {
    type V = BatchView;

    closed spec fn view(&self) -> BatchView {
        self.held.view()
    }
}

/// The text of three parts.
fn concat3(a: &str, b: &Vec<char>, c: &str) -> (r: Vec<char>)
    ensures
        r@ == a@ + b@ + c@,
{
    let mut out = chars_of(a);
    append_chars(&mut out, b);
    let tail = chars_of(c);
    append_chars(&mut out, &tail);
    out
}

impl ContinuousIntegrationProgress {
    /// Both tables are in the order of their names.
    #[verifier::type_invariant]
    spec fn ordered(self) -> bool {
        names_increase(self.held.view().running) && names_increase(self.held.view().finished)
    }

    /// The progress of a run of `total` tasks, none of them started.
    pub fn new(total: usize) -> (p: ContinuousIntegrationProgress)
        ensures
            p@ == (BatchView {
                total: total as nat,
                running: Seq::<TimedView>::empty(),
                finished: Seq::<TimedView>::empty(),
            }),
    {
        let mut held = Tables::empty();
        held.total = total;
        ContinuousIntegrationProgress { held }
    }

    /// The line that announces the run.
    pub fn banner(&self) -> (line: String)
        ensures
            line@ == banner_line(self@.total),
    {
        let n = decimal(self.held.total);
        let out = concat3("Running ", &n, " tasks");
        string_of(&out)
    }

    /// The lines of a summary at time `now`.
    pub fn log_status(&self, now: u64) -> (lines: Vec<String>)
        ensures
            text_views(lines@) == summary_lines(self@, now),
    {
        let running = decimal(self.held.running.len());
        let finished = decimal(self.held.finished.len());
        let total = decimal(self.held.total);
        let mut head = concat3("Running ", &running, ", finished ");
        append_chars(&mut head, &finished);
        let sep = chars_of(" / ");
        append_chars(&mut head, &sep);
        append_chars(&mut head, &total);
        let mut lines: Vec<String> = Vec::new();
        lines.push(string_of(&head));
        let ghost first = text_views(lines@);
        let ghost tasks = self@.running;
        assert(first =~= seq![
            summary_line(self@.running.len(), self@.finished.len(), self@.total),
        ]);
        let mut i: usize = 0;
        assert(running_lines(tasks.take(0), now) =~= Seq::<Seq<char>>::empty());
        assert(text_views(lines@) =~= first + running_lines(tasks.take(0), now));
        while i < self.held.running.len()
            invariant
                i <= self.held.running.len(),
                tasks == timed_views(self.held.running@),
                text_views(lines@) == first + running_lines(tasks.take(i as int), now),
            decreases self.held.running.len() - i,
        {
            let task = &self.held.running[i];
            let since = task.time;
            let span = format_span(if now >= since {
                now - since
            } else {
                0
            });
            let name = chars_of(task.name.as_str());
            let mut out = concat3("  ", &name, ": ");
            let tail = chars_of(span.as_str());
            append_chars(&mut out, &tail);
            let ghost held = text_views(lines@);
            lines.push(string_of(&out));
            proof {
                assert(out@ == running_line(tasks[i as int], now));
                assert(text_views(lines@) =~= held.push(out@));
                assert(running_lines(tasks.take(i as int + 1), now) =~= running_lines(
                    tasks.take(i as int),
                    now,
                ).push(out@));
            }
            i += 1;
        }
        assert(tasks.take(i as int) =~= tasks);
        lines
    }

    /// The lines of the final report: a heading, then a line for every
    /// finished task, none before a task that took less time.
    pub fn report(&self) -> (lines: Vec<String>)
        ensures
            text_views(lines@) == report_lines(self@),
            durations_ascend(by_duration(self@.finished)),
            by_duration(self@.finished).to_multiset() == self@.finished.to_multiset(),
    {
        let ghost tasks = self@.finished;
        proof {
            lemma_by_duration(tasks);
        }
        let mut order: Vec<usize> = Vec::new();
        let mut i: usize = 0;
        assert(tasks.take(0) =~= Seq::<TimedView>::empty());
        assert(picked(tasks, order@) =~= by_duration(tasks.take(0)));
        while i < self.held.finished.len()
            invariant
                i <= self.held.finished.len(),
                tasks == timed_views(self.held.finished@),
                forall|k: int| 0 <= k < order.len() ==> (#[trigger] order@[k]) < i,
                picked(tasks, order@) == by_duration(tasks.take(i as int)),
            decreases self.held.finished.len() - i,
        {
            let time = self.held.finished[i].time;
            let ghost sorted = picked(tasks, order@);
            let ghost task = tasks[i as int];
            let mut pos: usize = order.len();
            while pos > 0 && self.held.finished[order[pos - 1]].time > time
                invariant
                    pos <= order.len(),
                    i < self.held.finished.len(),
                    tasks == timed_views(self.held.finished@),
                    sorted == picked(tasks, order@),
                    task == tasks[i as int],
                    time == task.time,
                    forall|k: int| 0 <= k < order.len() ==> (#[trigger] order@[k]) < i,
                    forall|p: int| pos <= p < sorted.len() ==> (#[trigger] sorted[p]).time > time,
                decreases pos,
            {
                assert(sorted[pos - 1] == tasks[order@[pos - 1] as int]);
                pos -= 1;
            }
            proof {
                lemma_slot_skips_later(sorted, task, pos as int);
                let front = sorted.take(pos as int);
                if pos == 0 {
                    assert(front =~= Seq::<TimedView>::empty());
                } else {
                    assert(front.last() == sorted[pos - 1]);
                    assert(sorted[pos - 1] == tasks[order@[pos - 1] as int]);
                }
                assert(slot_in(front, task) == front.push(task));
                assert(tasks.take(i as int + 1).drop_last() =~= tasks.take(i as int));
                assert(tasks.take(i as int + 1).last() == task);
            }
            order.insert(pos, i);
            assert(picked(tasks, order@) =~= sorted.take(pos as int).push(task) + sorted.skip(
                pos as int,
            ));
            i += 1;
        }
        assert(tasks.take(i as int) =~= tasks);
        let ghost sorted = by_duration(tasks);
        let mut lines: Vec<String> = Vec::new();
        lines.push("Runtime report:".to_owned());
        let ghost first = text_views(lines@);
        assert(first =~= seq!["Runtime report:"@]);
        let mut k: usize = 0;
        assert(task_lines(sorted.take(0)) =~= Seq::<Seq<char>>::empty());
        assert(text_views(lines@) =~= first + task_lines(sorted.take(0)));
        while k < order.len()
            invariant
                k <= order.len(),
                tasks == timed_views(self.held.finished@),
                sorted == picked(tasks, order@),
                forall|k: int| 0 <= k < order.len() ==> (#[trigger] order@[k]) < tasks.len(),
                text_views(lines@) == first + task_lines(sorted.take(k as int)),
            decreases order.len() - k,
        {
            let task = &self.held.finished[order[k]];
            assert(sorted[k as int] == task@);
            let span = format_span(task.time);
            let took = chars_of(span.as_str());
            let mut out = concat3("  ", &took, ": ");
            let name = chars_of(task.name.as_str());
            append_chars(&mut out, &name);
            let ghost held = text_views(lines@);
            lines.push(string_of(&out));
            proof {
                assert(out@ == report_line(sorted[k as int]));
                assert(text_views(lines@) =~= held.push(out@));
                assert(task_lines(sorted.take(k as int + 1)) =~= task_lines(sorted.take(k as int)).push(
                    out@,
                ));
            }
            k += 1;
        }
        assert(sorted.take(k as int) =~= sorted);
        lines
    }

    /// Records that the task `name` started at time `now`, and returns the
    /// line that tells of it.
    pub fn on_start(&mut self, name: &str, now: u64) -> (line: String)
        ensures
            line@ == start_line(name@),
            final(self)@ == (BatchView { running: put(old(self)@.running, name@, now), ..old(self)@ }),
            names_increase(final(self)@.running),
    {
        proof {
            use_type_invariant(&*self);
            crate::timetable::lemma_put(self@.running, name@, now, name@);
        }
        let mut held = Tables::empty();
        std::mem::swap(&mut self.held, &mut held);
        table_put(&mut held.running, name, now);
        self.held = held;
        let mut out = chars_of("Starting ");
        let rest = chars_of(name);
        append_chars(&mut out, &rest);
        string_of(&out)
    }

    /// Records that the task `name` finished at time `now`, and returns
    /// the line that tells of it and of the time it took; nothing if the
    /// task is not running.
    pub fn on_finish(&mut self, name: &str, now: u64) -> (line: Option<String>)
        ensures
            match lookup(old(self)@.running, name@) {
                Some(since) => {
                    &&& line matches Some(text)
                    &&& text@ == finish_line(name@, elapsed(since, now))
                    &&& final(self)@ == (BatchView {
                        running: without(old(self)@.running, name@),
                        finished: put(old(self)@.finished, name@, elapsed(since, now)),
                        ..old(self)@
                    })
                },
                None => line is None && final(self)@ == old(self)@,
            },
    {
        proof {
            use_type_invariant(&*self);
            crate::timetable::lemma_without(self@.running, name@, name@);
        }
        let ghost before = self@;
        let mut held = Tables::empty();
        std::mem::swap(&mut self.held, &mut held);
        let line = match table_take(&mut held.running, name) {
            Some(since) => {
                let took = if now >= since {
                    now - since
                } else {
                    0
                };
                proof {
                    crate::timetable::lemma_put(before.finished, name@, took, name@);
                }
                table_put(&mut held.finished, name, took);
                let mut out = chars_of("Finished ");
                let who = chars_of(name);
                append_chars(&mut out, &who);
                let span = format_span(took);
                let mid = chars_of(" in ");
                append_chars(&mut out, &mid);
                let tail = chars_of(span.as_str());
                append_chars(&mut out, &tail);
                Some(string_of(&out))
            },
            None => {
                proof {
                    crate::timetable::lemma_absent_unchanged(before.running, name@);
                }
                None
            },
        };
        self.held = held;
        line
    }
}

} // verus!
