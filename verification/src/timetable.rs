//! Tables from names to times, kept in the order of the names.

use vstd::prelude::*;
use crate::order::{Relation, compare, lemma_lex_asymmetric, lemma_lex_irreflexive, lemma_lex_total, lemma_lex_transitive, lex_lt};
use crate::text::chars_of;

verus! {

/// A name and a time, in nanoseconds.
#[derive(Debug, PartialEq, Eq)]
pub struct Timed {
    pub name: String,
    pub time: u64,
}

/// A name and a time, in nanoseconds.
pub ghost struct TimedView {
    pub name: Seq<char>,
    pub time: u64,
}

impl View for Timed {
    type V = TimedView;

    open spec fn view(&self) -> TimedView {
        TimedView { name: self.name@, time: self.time }
    }
}

/// What the entries in a vector are.
pub open spec fn timed_views(entries: Seq<Timed>) -> Seq<TimedView> {
    entries.map_values(|e: Timed| e@)
}

/// The numbers by which a name is ordered: the codes of its characters.
pub open spec fn name_key(name: Seq<char>) -> Seq<u32> {
    name.map_values(|c: char| c as u32)
}

/// Whether the name `a` comes before the name `b`.
pub open spec fn name_lt(a: Seq<char>, b: Seq<char>) -> bool {
    lex_lt(name_key(a), name_key(b))
}

/// Whether the names of the entries are strictly increasing.
pub open spec fn names_increase(entries: Seq<TimedView>) -> bool {
    forall|i: int, e: int|
        0 <= i < e < entries.len() ==> name_lt((#[trigger] entries[i]).name, (#[trigger] entries[e]).name)
}

/// The table after `name` is given the time `time`: a new entry in the
/// place that keeps the names in order, or a new time for the old entry.
pub open spec fn put(entries: Seq<TimedView>, name: Seq<char>, time: u64) -> Seq<TimedView>
    decreases entries.len(),
{
    if entries.len() == 0 {
        seq![TimedView { name, time }]
    } else if name_lt(entries.last().name, name) {
        entries.push(TimedView { name, time })
    } else if entries.last().name == name {
        entries.drop_last().push(TimedView { name, time })
    } else {
        put(entries.drop_last(), name, time).push(entries.last())
    }
}

/// The table without the entries of `name`.
pub open spec fn without(entries: Seq<TimedView>, name: Seq<char>) -> Seq<TimedView>
    decreases entries.len(),
{
    if entries.len() == 0 {
        entries
    } else if entries.last().name == name {
        without(entries.drop_last(), name)
    } else {
        without(entries.drop_last(), name).push(entries.last())
    }
}

/// The time of `name` in the table, if it has one.
pub open spec fn lookup(entries: Seq<TimedView>, name: Seq<char>) -> Option<u64>
    decreases entries.len(),
{
    if entries.len() == 0 {
        None
    } else if entries.last().name == name {
        Some(entries.last().time)
    } else {
        lookup(entries.drop_last(), name)
    }
}

/// Names with the same key are the same.
pub proof fn lemma_key_names_name(a: Seq<char>, b: Seq<char>)
    requires
        name_key(a) == name_key(b),
    ensures
        a == b,
{
    assert(a.len() == name_key(a).len());
    assert(b.len() == name_key(b).len());
    assert forall|i: int| 0 <= i < a.len() implies a[i] == b[i] by {
        assert(name_key(a)[i] == a[i] as u32);
        assert(name_key(b)[i] == b[i] as u32);
        vstd::utf8::char_u32_cast(a[i], a[i] as u32);
        vstd::utf8::char_u32_cast(b[i], b[i] as u32);
    }
    assert(a =~= b);
}

/// A name that comes before every name of an ordered table is not in it.
proof fn lemma_lookup_misses(entries: Seq<TimedView>, name: Seq<char>)
    requires
        forall|i: int| 0 <= i < entries.len() ==> (#[trigger] entries[i]).name != name,
    ensures
        lookup(entries, name) is None,
        without(entries, name) == entries,
    decreases entries.len(),
{
    if entries.len() > 0 {
        let rest = entries.drop_last();
        assert forall|i: int| 0 <= i < rest.len() implies (#[trigger] rest[i]).name != name by {
            assert(rest[i] == entries[i]);
        }
        lemma_lookup_misses(rest, name);
        assert(entries[entries.len() - 1].name != name);
        assert(rest.push(entries.last()) =~= entries);
    }
}

/// Taking out a name that has no time changes nothing.
pub proof fn lemma_absent_unchanged(entries: Seq<TimedView>, name: Seq<char>)
    requires
        lookup(entries, name) is None,
    ensures
        without(entries, name) == entries,
    decreases entries.len(),
{
    if entries.len() > 0 {
        lemma_absent_unchanged(entries.drop_last(), name);
        assert(entries.drop_last().push(entries.last()) =~= entries);
    }
}

/// Giving a name a time keeps the names in order, gives that name that
/// time, and leaves the times of all other names as they were.
pub proof fn lemma_put(entries: Seq<TimedView>, name: Seq<char>, time: u64, other: Seq<char>)
    requires
        names_increase(entries),
    ensures
        names_increase(put(entries, name, time)),
        lookup(put(entries, name, time), name) == Some(time),
        other != name ==> lookup(put(entries, name, time), other) == lookup(entries, other),
        put(entries, name, time).len() == entries.len() + if lookup(entries, name) is Some {
            0int
        } else {
            1int
        },
        forall|i: int|
            0 <= i < put(entries, name, time).len() ==> (#[trigger] put(entries, name, time)[i]).name
                == name || exists|e: int|
                0 <= e < entries.len() && entries[e] == put(entries, name, time)[i],
    decreases entries.len(),
{
    let made = TimedView { name, time };
    let next = put(entries, name, time);
    if entries.len() == 0 {
        assert(next.drop_last() =~= entries);
    } else {
        let last = entries.last();
        let rest = entries.drop_last();
        let n = entries.len() as int;
        assert forall|i: int, e: int| 0 <= i < e < rest.len() implies name_lt(
            (#[trigger] rest[i]).name,
            (#[trigger] rest[e]).name,
        ) by {
            assert(rest[i] == entries[i] && rest[e] == entries[e]);
        }
        if name_lt(last.name, name) {
            lemma_lex_asymmetric(name_key(last.name), name_key(name));
            assert(next.drop_last() =~= entries);
            assert forall|i: int, e: int| 0 <= i < e < next.len() implies name_lt(
                (#[trigger] next[i]).name,
                (#[trigger] next[e]).name,
            ) by {
                if e == n {
                    if i < n - 1 {
                        assert(name_lt(entries[i].name, entries[n - 1].name));
                        lemma_lex_transitive(
                            name_key(entries[i].name),
                            name_key(last.name),
                            name_key(name),
                        );
                    }
                }
            }
            assert forall|i: int| 0 <= i < entries.len() implies (#[trigger] entries[i]).name
                != name by {
                if i < n - 1 {
                    assert(name_lt(entries[i].name, entries[n - 1].name));
                    lemma_lex_transitive(
                        name_key(entries[i].name),
                        name_key(last.name),
                        name_key(name),
                    );
                }
                lemma_lex_asymmetric(name_key(entries[i].name), name_key(name));
            }
            lemma_lookup_misses(entries, name);
            assert forall|i: int| 0 <= i < next.len() implies (#[trigger] next[i]).name == name
                || exists|e: int| 0 <= e < entries.len() && entries[e] == next[i] by {
                if i < n {
                    assert(entries[i] == next[i]);
                }
            }
        } else if last.name == name {
            assert(next.drop_last() =~= rest);
            assert forall|i: int, e: int| 0 <= i < e < next.len() implies name_lt(
                (#[trigger] next[i]).name,
                (#[trigger] next[e]).name,
            ) by {
                assert(name_lt(entries[i].name, entries[e].name));
            }
            assert forall|i: int| 0 <= i < next.len() implies (#[trigger] next[i]).name == name
                || exists|e: int| 0 <= e < entries.len() && entries[e] == next[i] by {
                if i < n - 1 {
                    assert(entries[i] == next[i]);
                }
            }
        } else {
            lemma_lex_total(name_key(last.name), name_key(name));
            if name_key(last.name) == name_key(name) {
                lemma_key_names_name(last.name, name);
            }
            lemma_put(rest, name, time, other);
            let inner = put(rest, name, time);
            assert(next.drop_last() =~= inner);
            assert forall|i: int| 0 <= i < next.len() implies (#[trigger] next[i]).name == name
                || exists|e: int| 0 <= e < entries.len() && entries[e] == next[i] by {
                if i < inner.len() {
                    assert(next[i] == inner[i]);
                    if inner[i].name != name {
                        let e = choose|e: int| 0 <= e < rest.len() && rest[e] == inner[i];
                        assert(entries[e] == next[i]);
                    }
                } else {
                    assert(entries[n - 1] == next[i]);
                }
            }
            assert forall|i: int, e: int| 0 <= i < e < next.len() implies name_lt(
                (#[trigger] next[i]).name,
                (#[trigger] next[e]).name,
            ) by {
                if e < inner.len() {
                    assert(next[i] == inner[i] && next[e] == inner[e]);
                } else {
                    assert(next[i] == inner[i]);
                    if inner[i].name == name {
                    } else {
                        let k = choose|k: int| 0 <= k < rest.len() && rest[k] == inner[i];
                        assert(name_lt(entries[k].name, entries[n - 1].name));
                    }
                }
            }
        }
    }
}

/// Taking a name out keeps the names in order, leaves that name without
/// a time, and leaves the times of all other names as they were.
pub proof fn lemma_without(entries: Seq<TimedView>, name: Seq<char>, other: Seq<char>)
    requires
        names_increase(entries),
    ensures
        names_increase(without(entries, name)),
        lookup(without(entries, name), name) is None,
        other != name ==> lookup(without(entries, name), other) == lookup(entries, other),
        without(entries, name).len() == entries.len() - if lookup(entries, name) is Some {
            1int
        } else {
            0int
        },
        forall|i: int|
            0 <= i < without(entries, name).len() ==> exists|e: int|
                i <= e < entries.len() && entries[e] == #[trigger] without(entries, name)[i],
    decreases entries.len(),
{
    let next = without(entries, name);
    if entries.len() > 0 {
        let last = entries.last();
        let rest = entries.drop_last();
        let n = entries.len() as int;
        assert forall|i: int, e: int| 0 <= i < e < rest.len() implies name_lt(
            (#[trigger] rest[i]).name,
            (#[trigger] rest[e]).name,
        ) by {
            assert(rest[i] == entries[i] && rest[e] == entries[e]);
        }
        lemma_without(rest, name, other);
        let inner = without(rest, name);
        if last.name == name {
            assert forall|i: int| 0 <= i < rest.len() implies (#[trigger] rest[i]).name != name by {
                assert(name_lt(entries[i].name, entries[n - 1].name));
                lemma_lex_asymmetric(name_key(entries[i].name), name_key(name));
            }
            lemma_lookup_misses(rest, name);
            assert forall|i: int| 0 <= i < next.len() implies exists|e: int|
                i <= e < entries.len() && entries[e] == #[trigger] next[i] by {
                assert(entries[i] == next[i]);
            }
        } else {
            assert(next.drop_last() =~= inner);
            assert forall|i: int| 0 <= i < next.len() implies exists|e: int|
                i <= e < entries.len() && entries[e] == #[trigger] next[i] by {
                if i < inner.len() {
                    assert(next[i] == inner[i]);
                    let e = choose|e: int| i <= e < rest.len() && rest[e] == inner[i];
                    assert(entries[e] == next[i]);
                } else {
                    assert(entries[n - 1] == next[i]);
                }
            }
            assert forall|i: int, e: int| 0 <= i < e < next.len() implies name_lt(
                (#[trigger] next[i]).name,
                (#[trigger] next[e]).name,
            ) by {
                if e < inner.len() {
                    assert(next[i] == inner[i] && next[e] == inner[e]);
                } else {
                    assert(next[i] == inner[i]);
                    let k = choose|k: int| i <= k < rest.len() && rest[k] == inner[i];
                    assert(name_lt(entries[k].name, entries[n - 1].name));
                }
            }
        }
    }
}

/// Giving a name a time leaves alone every entry at or after `pos` when
/// the name comes before all of their names.
proof fn lemma_put_skips_later(entries: Seq<TimedView>, name: Seq<char>, time: u64, pos: int)
    requires
        0 <= pos <= entries.len(),
        forall|p: int| pos <= p < entries.len() ==> name_lt(name, (#[trigger] entries[p]).name),
    ensures
        put(entries, name, time) == put(entries.take(pos), name, time) + entries.skip(pos),
    decreases entries.len() - pos,
{
    if pos == entries.len() {
        assert(entries.take(pos) =~= entries);
        assert(put(entries, name, time) + entries.skip(pos) =~= put(entries, name, time));
    } else {
        let last = entries.last();
        assert(name_lt(name, entries[entries.len() - 1].name));
        lemma_lex_asymmetric(name_key(name), name_key(last.name));
        let shorter = entries.drop_last();
        assert forall|p: int| pos <= p < shorter.len() implies name_lt(
            name,
            (#[trigger] shorter[p]).name,
        ) by {
            assert(shorter[p] == entries[p]);
        }
        lemma_put_skips_later(shorter, name, time, pos);
        assert(shorter.take(pos) =~= entries.take(pos));
        assert((put(shorter.take(pos), name, time) + shorter.skip(pos)).push(last) =~= put(
            entries.take(pos),
            name,
            time,
        ) + entries.skip(pos));
    }
}

/// Taking out a name that only the entry at `k` has takes out that entry.
proof fn lemma_without_one(entries: Seq<TimedView>, name: Seq<char>, k: int)
    requires
        0 <= k < entries.len(),
        entries[k].name == name,
        forall|i: int| 0 <= i < entries.len() && i != k ==> (#[trigger] entries[i]).name != name,
    ensures
        without(entries, name) == entries.remove(k),
        lookup(entries, name) == Some(entries[k].time),
    decreases entries.len(),
{
    let rest = entries.drop_last();
    if k == entries.len() - 1 {
        assert forall|i: int| 0 <= i < rest.len() implies (#[trigger] rest[i]).name != name by {
            assert(rest[i] == entries[i]);
        }
        lemma_lookup_misses(rest, name);
        assert(entries.remove(k) =~= rest);
    } else {
        assert(entries[entries.len() - 1].name != name);
        assert forall|i: int| 0 <= i < rest.len() && i != k implies (#[trigger] rest[i]).name
            != name by {
            assert(rest[i] == entries[i]);
        }
        lemma_without_one(rest, name, k);
        assert(rest.remove(k).push(entries.last()) =~= entries.remove(k));
    }
}

/// The numbers by which a name is ordered.
pub fn key_of(name: &str) -> (key: Vec<u32>)
    ensures
        key@ == name_key(name@),
{
    let chars = chars_of(name);
    let mut key: Vec<u32> = Vec::new();
    let mut i: usize = 0;
    while i < chars.len()
        invariant
            i <= chars.len(),
            chars@ == name@,
            key@ == name_key(name@.take(i as int)),
        decreases chars.len() - i,
    {
        key.push(chars[i] as u32);
        assert(key@ =~= name_key(name@.take(i as int + 1)));
        i += 1;
    }
    assert(name@.take(i as int) =~= name@);
    key
}

/// Gives `name` the time `time` in the table.
pub fn table_put(entries: &mut Vec<Timed>, name: &str, time: u64)
    ensures
        timed_views(final(entries)@) == put(timed_views(old(entries)@), name@, time),
{
    let ghost before = timed_views(entries@);
    let key = key_of(name);
    let mut pos: usize = entries.len();
    let mut placed = false;
    let mut same = false;
    while pos > 0 && !placed
        invariant
            pos <= entries.len(),
            before == timed_views(entries@),
            key@ == name_key(name@),
            forall|p: int| pos <= p < before.len() ==> name_lt(name@, (#[trigger] before[p]).name),
            placed ==> pos > 0,
            placed && same ==> before[pos - 1].name == name@,
            placed && !same ==> name_lt(before[pos - 1].name, name@),
            !placed ==> !same,
        decreases pos + (if placed { 0int } else { 1int }),
    {
        let here = key_of(entries[pos - 1].name.as_str());
        assert(before[pos - 1].name == entries@[pos - 1].name@);
        match compare(&here, &key) {
            Relation::Before => {
                placed = true;
            },
            Relation::Same => {
                proof {
                    lemma_key_names_name(before[pos - 1].name, name@);
                }
                placed = true;
                same = true;
            },
            Relation::After => {
                pos -= 1;
            },
        }
    }
    let ghost front = before.take(pos as int);
    let ghost made = TimedView { name: name@, time };
    proof {
        lemma_put_skips_later(before, name@, time, pos as int);
        if pos == 0 {
            assert(front =~= Seq::<TimedView>::empty());
            assert(put(front, name@, time) == seq![made]);
        } else {
            assert(front.last() == before[pos - 1]);
            if same {
                lemma_lex_irreflexive(name_key(name@));
                assert(put(front, name@, time) == front.drop_last().push(made));
            } else {
                assert(put(front, name@, time) == front.push(made));
            }
        }
    }
    if same {
        entries.set(pos - 1, Timed { name: name.to_owned(), time });
        assert(timed_views(entries@) =~= front.drop_last().push(made) + before.skip(pos as int));
    } else {
        entries.insert(pos, Timed { name: name.to_owned(), time });
        assert(timed_views(entries@) =~= front.push(made) + before.skip(pos as int));
    }
}

/// Takes `name` out of the table and returns the time it had.
pub fn table_take(entries: &mut Vec<Timed>, name: &str) -> (time: Option<u64>)
    requires
        names_increase(timed_views(old(entries)@)),
    ensures
        time == lookup(timed_views(old(entries)@), name@),
        timed_views(final(entries)@) == without(timed_views(old(entries)@), name@),
{
    let ghost before = timed_views(entries@);
    let key = key_of(name);
    let mut pos: usize = entries.len();
    let mut placed = false;
    let mut same = false;
    while pos > 0 && !placed
        invariant
            pos <= entries.len(),
            before == timed_views(entries@),
            key@ == name_key(name@),
            forall|p: int| pos <= p < before.len() ==> name_lt(name@, (#[trigger] before[p]).name),
            placed ==> pos > 0,
            placed && same ==> before[pos - 1].name == name@,
            placed && !same ==> name_lt(before[pos - 1].name, name@),
            !placed ==> !same,
        decreases pos + (if placed { 0int } else { 1int }),
    {
        let here = key_of(entries[pos - 1].name.as_str());
        assert(before[pos - 1].name == entries@[pos - 1].name@);
        match compare(&here, &key) {
            Relation::Before => {
                placed = true;
            },
            Relation::Same => {
                proof {
                    lemma_key_names_name(before[pos - 1].name, name@);
                }
                placed = true;
                same = true;
            },
            Relation::After => {
                pos -= 1;
            },
        }
    }
    proof {
        assert forall|i: int| 0 <= i < before.len() && !(same && i == pos - 1) implies (
        #[trigger] before[i]).name != name@ by {
            if i >= pos {
                lemma_lex_asymmetric(name_key(name@), name_key(before[i].name));
            } else if pos > 0 {
                if i < pos - 1 {
                    assert(name_lt(before[i].name, before[pos - 1].name));
                    if same {
                    } else {
                        lemma_lex_transitive(
                            name_key(before[i].name),
                            name_key(before[pos - 1].name),
                            name_key(name@),
                        );
                    }
                }
                lemma_lex_asymmetric(name_key(before[i].name), name_key(name@));
            }
        }
    }
    if same {
        proof {
            lemma_without_one(before, name@, pos - 1);
        }
        let taken = entries.remove(pos - 1);
        assert(timed_views(entries@) =~= before.remove(pos - 1));
        Some(taken.time)
    } else {
        proof {
            lemma_lookup_misses(before, name@);
        }
        None
    }
}

} // verus!
