//! The display slots of a live progress view.
//!
//! Every running task has a slot.  A slot whose task has finished is used
//! again for the next task that starts; a new slot is made only when all
//! are busy, so there are never more slots than tasks have run at once.

use vstd::prelude::*;
use crate::text::{chars_of, same_chars};

verus! {

/// The slots of a live progress view, each idle or busy with a task.
pub struct SlotPool {
    held: Slots,
}

struct Slots {
    slots: Vec<Option<String>>,
    peak: Ghost<nat>,
}

/// What a slot shows: nothing, or the name of its task.
pub open spec fn slot_view(slot: Option<String>) -> Option<Seq<char>> {
    match slot {
        Some(name) => Some(name@),
        None => None,
    }
}

impl View for SlotPool {
    type V = Seq<Option<Seq<char>>>;

    closed spec fn view(&self) -> Seq<Option<Seq<char>>> {
        shown(self.held.slots@)
    }
}

/// What the slots in a vector show.
pub open spec fn shown(slots: Seq<Option<String>>) -> Seq<Option<Seq<char>>> {
    slots.map_values(|s: Option<String>| slot_view(s))
}

/// The number of busy slots.
pub open spec fn busy(slots: Seq<Option<Seq<char>>>) -> nat
    decreases slots.len(),
{
    if slots.len() == 0 {
        0
    } else {
        busy(slots.drop_last()) + if slots.last() is Some {
            1nat
        } else {
            0nat
        }
    }
}

/// Whether `i` is the first idle slot.
pub open spec fn is_first_idle(slots: Seq<Option<Seq<char>>>, i: int) -> bool {
    &&& 0 <= i < slots.len()
    &&& slots[i] is None
    &&& forall|k: int| 0 <= k < i ==> (#[trigger] slots[k]) is Some
}

/// Whether every slot is busy.
pub open spec fn all_busy(slots: Seq<Option<Seq<char>>>) -> bool {
    forall|k: int| 0 <= k < slots.len() ==> (#[trigger] slots[k]) is Some
}

/// Whether `i` is the first slot busy with the task `name`.
pub open spec fn is_first_showing(slots: Seq<Option<Seq<char>>>, name: Seq<char>, i: int) -> bool {
    &&& 0 <= i < slots.len()
    &&& slots[i] == Some(name)
    &&& forall|k: int| 0 <= k < i ==> (#[trigger] slots[k]) != Some(name)
}

/// Whether no slot is busy with the task `name`.
pub open spec fn none_showing(slots: Seq<Option<Seq<char>>>, name: Seq<char>) -> bool {
    forall|k: int| 0 <= k < slots.len() ==> (#[trigger] slots[k]) != Some(name)
}

/// The larger of two numbers.
pub open spec fn larger(a: nat, b: nat) -> nat {
    if a >= b {
        a
    } else {
        b
    }
}

/// No more slots are busy than there are, and all are busy exactly when
/// as many are busy as there are.
pub proof fn lemma_busy_bounds(slots: Seq<Option<Seq<char>>>)
    ensures
        busy(slots) <= slots.len(),
        busy(slots) == slots.len() <==> all_busy(slots),
    decreases slots.len(),
{
    if slots.len() > 0 {
        let rest = slots.drop_last();
        lemma_busy_bounds(rest);
        if all_busy(slots) {
            assert forall|k: int| 0 <= k < rest.len() implies (#[trigger] rest[k]) is Some by {
                assert(slots[k] is Some);
            }
            assert(slots[slots.len() - 1] is Some);
        }
        if busy(slots) == slots.len() {
            assert forall|k: int| 0 <= k < slots.len() implies (#[trigger] slots[k]) is Some by {
                if k < rest.len() {
                    assert(rest[k] is Some);
                }
            }
        }
    }
}

/// Changing one slot changes the number of busy slots by what that slot
/// gains or loses.
pub proof fn lemma_busy_update(slots: Seq<Option<Seq<char>>>, i: int, slot: Option<Seq<char>>)
    requires
        0 <= i < slots.len(),
    ensures
        busy(slots.update(i, slot)) + (if slots[i] is Some {
            1nat
        } else {
            0nat
        }) == busy(slots) + (if slot is Some {
            1nat
        } else {
            0nat
        }),
    decreases slots.len(),
{
    let changed = slots.update(i, slot);
    if i == slots.len() - 1 {
        assert(changed.drop_last() =~= slots.drop_last());
    } else {
        lemma_busy_update(slots.drop_last(), i, slot);
        assert(changed.drop_last() =~= slots.drop_last().update(i, slot));
    }
}

impl Slots {
    fn empty() -> (s: Slots)
        ensures
            s.slots@.len() == 0,
            s.peak@ == 0,
    {
        Slots { slots: Vec::new(), peak: Ghost(0) }
    }
}

impl SlotPool {
    /// There are as many slots as tasks have been running at once.
    #[verifier::type_invariant]
    spec fn sized_by_peak(self) -> bool {
        self.held.slots@.len() == self.held.peak@
    }

    /// The most tasks that have been running at once so far.
    pub closed spec fn peak(&self) -> nat {
        self.held.peak@
    }

    /// A pool without slots.
    pub fn new() -> (pool: SlotPool)
        ensures
            pool@.len() == 0,
            pool.peak() == 0,
    {
        SlotPool { held: Slots::empty() }
    }

    /// The number of slots.
    pub fn len(&self) -> (n: usize)
        ensures
            n == self@.len(),
            n == self.peak(),
    {
        proof {
            use_type_invariant(self);
        }
        self.held.slots.len()
    }

    /// Gives the starting task `name` a slot and returns its number: the
    /// first idle slot, or a new one behind the others if all are busy.
    pub fn on_start(&mut self, name: &str) -> (slot: usize)
        ensures
            slot <= old(self)@.len(),
            slot < old(self)@.len() ==> is_first_idle(old(self)@, slot as int) && final(self)@
                == old(self)@.update(slot as int, Some(name@)),
            slot == old(self)@.len() ==> all_busy(old(self)@) && final(self)@ == old(self)@.push(
                Some(name@),
            ),
            final(self).peak() == larger(old(self).peak(), busy(final(self)@)),
            final(self)@.len() == final(self).peak(),
    {
        proof {
            use_type_invariant(&*self);
        }
        let ghost before = self@;
        let mut held = Slots::empty();
        std::mem::swap(&mut self.held, &mut held);
        let n = held.slots.len();
        let mut i: usize = 0;
        while i < n && held.slots[i].is_some()
            invariant
                i <= n,
                n == held.slots.len(),
                before == shown(held.slots@),
                forall|k: int| 0 <= k < i ==> (#[trigger] before[k]) is Some,
            decreases n - i,
        {
            assert(before[i as int] is Some);
            i += 1;
        }
        proof {
            lemma_busy_bounds(before);
        }
        if i < n {
            assert(before[i as int] is None);
            held.slots.set(i, Some(name.to_owned()));
            proof {
                let after = shown(held.slots@);
                assert(after =~= before.update(i as int, Some(name@)));
                lemma_busy_update(before, i as int, Some(name@));
                lemma_busy_bounds(after);
            }
        } else {
            held.slots.push(Some(name.to_owned()));
            proof {
                let after = shown(held.slots@);
                assert(after =~= before.push(Some(name@)));
                assert(after.drop_last() =~= before);
                lemma_busy_bounds(after);
                held.peak@ = held.peak@ + 1;
            }
        }
        self.held = held;
        i
    }

    /// Frees the slot of the finished task `name` and returns its number:
    /// the first slot busy with a task of that name, or nothing if there
    /// is none.
    pub fn on_finish(&mut self, name: &str) -> (slot: Option<usize>)
        ensures
            match slot {
                Some(i) => is_first_showing(old(self)@, name@, i as int) && final(self)@ == old(
                    self,
                )@.update(i as int, None),
                None => none_showing(old(self)@, name@) && final(self)@ == old(self)@,
            },
            final(self).peak() == old(self).peak(),
            final(self)@.len() == final(self).peak(),
    {
        proof {
            use_type_invariant(&*self);
        }
        let ghost before = self@;
        let wanted = chars_of(name);
        let mut held = Slots::empty();
        std::mem::swap(&mut self.held, &mut held);
        let n = held.slots.len();
        let mut i: usize = 0;
        let mut found = false;
        while i < n && !found
            invariant
                i <= n,
                n == held.slots.len(),
                wanted@ == name@,
                before == shown(held.slots@),
                found ==> i < n && before[i as int] == Some(name@),
                forall|k: int| 0 <= k < i ==> (#[trigger] before[k]) != Some(name@),
            decreases n - i + if found { 0int } else { 1int },
        {
            let here = match &held.slots[i] {
                Some(task) => {
                    let have = chars_of(task.as_str());
                    same_chars(&have, &wanted)
                },
                None => false,
            };
            if here {
                found = true;
            } else {
                i += 1;
            }
        }
        let slot = if found {
            held.slots.set(i, None);
            assert(shown(held.slots@) =~= before.update(i as int, None));
            Some(i)
        } else {
            None
        };
        self.held = held;
        slot
    }
}

} // verus!
