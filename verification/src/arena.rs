//! The mathematical model of a generational arena, and what holds of it.

use vstd::prelude::*;

verus! {

/// What a handle is made of: the slot it points at and the generation of
/// that slot at the time the handle was issued.
pub struct Handle {
    pub index: nat,
    pub generation: u32,
}

/// One storage slot of an arena: its generation counter and its tenant, if any.
#[derive(Debug)]
pub struct Slot<T> {
    pub generation: u32,
    pub val: Option<T>,
}

/// The generation that a slot moves to when its value is removed.
pub open spec fn next_generation(g: u32) -> u32 {
    if g == u32::MAX {
        0
    } else {
        (g + 1) as u32
    }
}

/// The mathematical content of a [`SlotMap`]: its slots in index order and
/// the stack of vacant indices, the next one to be reused last.
#[verifier::ext_equal]
pub struct Arena<T> {
    pub slots: Seq<Slot<T>>,
    pub free: Seq<u32>,
}

impl<T> Arena<T> {
    /// The arena with no slots.
    pub open spec fn empty() -> Arena<T> {
        Arena { slots: Seq::empty(), free: Seq::empty() }
    }

    /// The bookkeeping is consistent: every slot index fits a handle, the
    /// vacancy stack lists each vacant slot exactly once and nothing else,
    /// and so the stored values and the vacancies add up to the slots.
    pub open spec fn wf(self) -> bool {
        &&& self.slots.len() <= u32::MAX + 1
        &&& self.len() + self.free.len() == self.slots.len()
        &&& self.free.no_duplicates()
        &&& forall|j: int|
            0 <= j < self.free.len() ==> (#[trigger] self.free[j]) < self.slots.len()
                && self.slots[self.free[j] as int].val is None
        &&& forall|i: int|
            0 <= i < self.slots.len() && (#[trigger] self.slots[i]).val is None
                ==> self.free.contains(i as u32)
    }

    /// A handle is valid when its slot exists, is occupied, and still has
    /// the generation the handle was issued for.
    pub open spec fn contains(self, h: Handle) -> bool {
        &&& h.index < self.slots.len()
        &&& self.slots[h.index as int].generation == h.generation
        &&& self.slots[h.index as int].val is Some
    }

    /// The value that a handle resolves to, if the handle is valid.
    pub open spec fn get(self, h: Handle) -> Option<T> {
        if self.contains(h) {
            self.slots[h.index as int].val
        } else {
            None
        }
    }

    /// How many more values can be stored, each under a handle of its own:
    /// one for each vacant slot and one for each slot index not yet in use,
    /// of which there are as many as a `u32` has values.
    pub open spec fn room(self) -> nat {
        (self.free.len() + (u32::MAX + 1 - self.slots.len())) as nat
    }

    /// The handle that the next insertion will return.
    pub open spec fn next_handle(self) -> Handle {
        if self.free.len() > 0 {
            Handle {
                index: self.free.last() as nat,
                generation: self.slots[self.free.last() as int].generation,
            }
        } else {
            Handle { index: self.slots.len(), generation: 0 }
        }
    }

    /// Storing `value`: the slot on top of the vacancy stack takes it and
    /// keeps its generation; with no vacancy a new slot of generation 0 is
    /// appended.
    pub open spec fn insert(self, value: T) -> (Arena<T>, Handle) {
        let h = self.next_handle();
        if self.free.len() > 0 {
            (
                Arena {
                    slots: self.slots.update(
                        h.index as int,
                        Slot { generation: h.generation, val: Some(value) },
                    ),
                    free: self.free.drop_last(),
                },
                h,
            )
        } else {
            (
                Arena {
                    slots: self.slots.push(Slot { generation: 0, val: Some(value) }),
                    free: self.free,
                },
                h,
            )
        }
    }

    /// Removing through `h`: a valid handle empties its slot, advances the
    /// slot's generation by one (wrapping) and puts the index on the vacancy
    /// stack; any other handle changes nothing.
    pub open spec fn remove(self, h: Handle) -> (Arena<T>, Option<T>) {
        if self.contains(h) {
            (
                Arena {
                    slots: self.slots.update(
                        h.index as int,
                        Slot { generation: next_generation(h.generation), val: None },
                    ),
                    free: self.free.push(h.index as u32),
                },
                self.slots[h.index as int].val,
            )
        } else {
            (self, None)
        }
    }

    /// The arena in which the value behind the valid handle `h` is `value`.
    pub open spec fn set(self, h: Handle, value: T) -> Arena<T> {
        Arena {
            slots: self.slots.update(
                h.index as int,
                Slot { generation: h.generation, val: Some(value) },
            ),
            free: self.free,
        }
    }

    /// The handle that reaches slot `i` at present.
    pub open spec fn handle_at(self, i: int) -> Handle {
        Handle { index: i as nat, generation: self.slots[i].generation }
    }

    /// The occupied slots among the first `n`, in index order, each with the
    /// handle that reaches it.
    pub open spec fn entries_below(self, n: nat) -> Seq<(Handle, T)>
        decreases n,
    {
        if n == 0 {
            Seq::empty()
        } else {
            let before = self.entries_below((n - 1) as nat);
            match self.slots[n - 1].val {
                Some(v) => before.push((self.handle_at(n - 1), v)),
                None => before,
            }
        }
    }

    /// All occupied slots in index order.
    pub open spec fn entries(self) -> Seq<(Handle, T)> {
        self.entries_below(self.slots.len())
    }

    /// The number of values stored.
    pub open spec fn len(self) -> nat {
        self.entries().len()
    }

    /// The arena after storing `values` one after the other.
    pub open spec fn insert_all(self, values: Seq<T>) -> Arena<T>
        decreases values.len(),
    {
        if values.len() == 0 {
            self
        } else {
            self.insert_all(values.drop_last()).insert(values.last()).0
        }
    }

    /// The arena after removing through `handles` one after the other.
    pub open spec fn remove_all(self, handles: Seq<Handle>) -> Arena<T>
        decreases handles.len(),
    {
        if handles.len() == 0 {
            self
        } else {
            self.remove_all(handles.drop_last()).remove(handles.last()).0
        }
    }
}

impl<T> Arena<T> {
    /// No more slots are occupied among the first `n` than there are slots.
    pub proof fn lemma_entries_below_bound(self, n: nat)
        ensures
            self.entries_below(n).len() <= n,
        decreases n,
    {
        if n > 0 {
            self.lemma_entries_below_bound((n - 1) as nat);
        }
    }

    /// The entries among the first `n` slots depend on those slots alone.
    pub proof fn lemma_entries_below_agree(self, other: Arena<T>, n: nat)
        requires
            n <= self.slots.len(),
            n <= other.slots.len(),
            forall|i: int| 0 <= i < n ==> self.slots[i] == other.slots[i],
        ensures
            self.entries_below(n) == other.entries_below(n),
        decreases n,
    {
        if n > 0 {
            self.lemma_entries_below_agree(other, (n - 1) as nat);
        }
    }

    /// Changing one slot changes the number of entries by the change in
    /// that slot's occupancy.
    pub proof fn lemma_entries_below_change(self, other: Arena<T>, i: int, n: nat)
        requires
            self.slots.len() == other.slots.len(),
            0 <= i < n <= self.slots.len(),
            forall|j: int| 0 <= j < self.slots.len() && j != i ==> self.slots[j] == other.slots[j],
        ensures
            other.entries_below(n).len() + (if self.slots[i].val is Some {
                1nat
            } else {
                0nat
            }) == self.entries_below(n).len() + (if other.slots[i].val is Some {
                1nat
            } else {
                0nat
            }),
        decreases n,
    {
        if n - 1 == i {
            self.lemma_entries_below_agree(other, (n - 1) as nat);
        } else {
            self.lemma_entries_below_change(other, i, (n - 1) as nat);
        }
    }

    /// What the entries among the first `n` slots are: each is an occupied
    /// slot below `n` with its present handle, they come in strictly
    /// increasing index order, and no occupied slot below `n` is left out.
    pub proof fn lemma_entries_below_are_the_occupied_slots(self, n: nat)
        requires
            n <= self.slots.len(),
        ensures
            forall|j: int|
                0 <= j < self.entries_below(n).len() ==> {
                    let e = #[trigger] self.entries_below(n)[j];
                    &&& e.0.index < n
                    &&& e.0 == self.handle_at(e.0.index as int)
                    &&& self.slots[e.0.index as int].val == Some(e.1)
                },
            forall|j: int, k: int|
                0 <= j < k < self.entries_below(n).len() ==> (#[trigger] self.entries_below(
                    n,
                )[j]).0.index < (#[trigger] self.entries_below(n)[k]).0.index,
            forall|i: int|
                0 <= i < n && (#[trigger] self.slots[i]).val is Some ==> exists|j: int|
                    0 <= j < self.entries_below(n).len() && (#[trigger] self.entries_below(
                        n,
                    )[j]).0.index == i,
        decreases n,
    {
        if n > 0 {
            let m = (n - 1) as nat;
            self.lemma_entries_below_are_the_occupied_slots(m);
            let before = self.entries_below(m);
            let now = self.entries_below(n);
            assert forall|i: int| 0 <= i < n && (#[trigger] self.slots[i]).val is Some implies exists|
                j: int,
            |
                0 <= j < now.len() && (#[trigger] now[j]).0.index == i by {
                if i < m {
                    let j = choose|j: int|
                        0 <= j < before.len() && (#[trigger] before[j]).0.index == i;
                    assert(now[j] == before[j]);
                } else {
                    assert(now[now.len() - 1].0.index == i);
                }
            }
        }
    }

    /// The entries are the valid handles, each once and with the value it
    /// resolves to, in the order of their slots.
    pub proof fn lemma_entries_are_the_valid_handles(self)
        ensures
            forall|j: int|
                0 <= j < self.entries().len() ==> self.get((#[trigger] self.entries()[j]).0)
                    == Some(self.entries()[j].1),
            forall|j: int, k: int|
                0 <= j < k < self.entries().len() ==> (#[trigger] self.entries()[j]).0.index < (
                #[trigger] self.entries()[k]).0.index,
            forall|h: Handle|
                self.contains(h) ==> exists|j: int|
                    0 <= j < self.entries().len() && (#[trigger] self.entries()[j]).0 == h,
    {
        self.lemma_entries_below_are_the_occupied_slots(self.slots.len());
        assert forall|h: Handle| self.contains(h) implies exists|j: int|
            0 <= j < self.entries().len() && (#[trigger] self.entries()[j]).0 == h by {
            assert(self.slots[h.index as int].val is Some);
            let j = choose|j: int|
                0 <= j < self.entries().len() && (#[trigger] self.entries()[j]).0.index == h.index;
            assert(self.entries()[j].0 == h);
        }
    }

    /// In a consistent arena the values stored and the room left add up to
    /// the number of values of a `u32`.
    pub proof fn lemma_room_is_what_is_left(self)
        requires
            self.wf(),
        ensures
            self.room() + self.len() == u32::MAX + 1,
    {
    }

    /// Storing a value keeps the bookkeeping consistent, raises the count by
    /// one and uses up one unit of room.
    pub proof fn lemma_insert_consistent(self, value: T)
        requires
            self.wf(),
            self.room() > 0,
        ensures
            self.insert(value).0.wf(),
            self.insert(value).0.len() == self.len() + 1,
            self.insert(value).0.room() == self.room() - 1,
    {
        let after = self.insert(value).0;
        if self.free.len() > 0 {
            let top = self.free.len() - 1;
            let i = self.free[top];
            assert forall|k: int|
                0 <= k < after.slots.len() && (#[trigger] after.slots[k]).val is None implies after.free.contains(
                k as u32,
            ) by {
                assert(self.slots[k].val is None);
                let j = choose|j: int| 0 <= j < self.free.len() && self.free[j] == k as u32;
                assert(j != top);
                assert(after.free[j] == k as u32);
            }
            assert forall|j: int| 0 <= j < after.free.len() implies (#[trigger] after.free[j])
                < after.slots.len() && after.slots[after.free[j] as int].val is None by {
                assert(self.free[j] == after.free[j]);
                assert(self.free[j] != self.free[top]);
            }
            self.lemma_entries_below_change(after, i as int, self.slots.len());
        } else {
            assert forall|k: int|
                0 <= k < after.slots.len() && (#[trigger] after.slots[k]).val is None implies after.free.contains(
                k as u32,
            ) by {
                assert(self.slots[k].val is None);
            }
            self.lemma_entries_below_agree(after, self.slots.len());
        }
    }

    /// Removing keeps the bookkeeping consistent; through a valid handle it
    /// lowers the count by one and gives back one unit of room.
    pub proof fn lemma_remove_consistent(self, h: Handle)
        requires
            self.wf(),
        ensures
            self.remove(h).0.wf(),
            self.contains(h) ==> self.remove(h).0.len() + 1 == self.len(),
            self.contains(h) ==> self.remove(h).0.room() == self.room() + 1,
    {
        let after = self.remove(h).0;
        if self.contains(h) {
            let top = self.free.len() as int;
            assert forall|k: int|
                0 <= k < after.slots.len() && (#[trigger] after.slots[k]).val is None implies after.free.contains(
                k as u32,
            ) by {
                if k == h.index {
                    assert(after.free[top] == k as u32);
                } else {
                    assert(self.slots[k].val is None);
                    let j = choose|j: int| 0 <= j < self.free.len() && self.free[j] == k as u32;
                    assert(after.free[j] == k as u32);
                }
            }
            assert forall|j: int| 0 <= j < after.free.len() implies (#[trigger] after.free[j])
                < after.slots.len() && after.slots[after.free[j] as int].val is None by {
                if j < top {
                    assert(self.free[j] == after.free[j]);
                }
            }
            assert forall|j: int, k: int|
                0 <= j < after.free.len() && 0 <= k < after.free.len() && j != k implies after.free[j]
                != after.free[k] by {
                if j < top {
                    assert(self.free[j] == after.free[j]);
                }
                if k < top {
                    assert(self.free[k] == after.free[k]);
                }
            }
            self.lemma_entries_below_change(after, h.index as int, self.slots.len());
        }
    }

    /// Replacing a stored value changes neither the bookkeeping nor the count.
    pub proof fn lemma_set_consistent(self, h: Handle, value: T)
        requires
            self.contains(h),
        ensures
            self.wf() ==> self.set(h, value).wf(),
            self.set(h, value).len() == self.len(),
            self.set(h, value).room() == self.room(),
            self.set(h, value).get(h) == Some(value),
    {
        let after = self.set(h, value);
        self.lemma_entries_below_change(after, h.index as int, self.slots.len());
        if self.wf() {
            assert forall|k: int|
                0 <= k < after.slots.len() && (#[trigger] after.slots[k]).val is None implies after.free.contains(
                k as u32,
            ) by {
                assert(self.slots[k].val is None);
            }
        }
    }

    /// What was just stored is what its handle resolves to.
    pub proof fn lemma_insert_then_get(self, value: T)
        requires
            self.wf(),
        ensures
            self.insert(value).0.get(self.insert(value).1) == Some(value),
    {
        if self.free.len() > 0 {
            assert(self.free[self.free.len() - 1] < self.slots.len());
        }
    }

    /// The handle that the next insertion returns is not valid yet.
    pub proof fn lemma_next_handle_is_new(self)
        requires
            self.wf(),
        ensures
            !self.contains(self.next_handle()),
    {
        if self.free.len() > 0 {
            assert(self.slots[self.free[self.free.len() - 1] as int].val is None);
        }
    }

    /// Storing a value hands out a handle that was not valid before, and
    /// leaves every handle that was valid with the value it had.
    pub proof fn lemma_insert_keeps_others(self, value: T, h: Handle)
        requires
            self.wf(),
            self.contains(h),
        ensures
            self.insert(value).1 != h,
            self.insert(value).0.get(h) == self.get(h),
    {
        self.lemma_next_handle_is_new();
    }

    /// Removing through one handle leaves every other valid handle with the
    /// value it had.
    pub proof fn lemma_remove_keeps_others(self, h: Handle, other: Handle)
        requires
            self.contains(other),
            other != h,
        ensures
            self.remove(h).0.get(other) == self.get(other),
    {
    }

    /// Storing values keeps the arena consistent, adds them to the count and
    /// changes neither the number of a slot that was there nor its generation.
    pub proof fn lemma_insert_all_keeps_slots(self, values: Seq<T>)
        requires
            self.wf(),
            self.room() >= values.len(),
        ensures
            self.insert_all(values).wf(),
            self.insert_all(values).len() == self.len() + values.len(),
            self.insert_all(values).room() == self.room() - values.len(),
            self.insert_all(values).slots.len() >= self.slots.len(),
            forall|i: int|
                0 <= i < self.slots.len() ==> (#[trigger] self.insert_all(values).slots[i]).generation
                    == self.slots[i].generation,
        decreases values.len(),
    {
        if values.len() > 0 {
            let before = self.insert_all(values.drop_last());
            self.lemma_insert_all_keeps_slots(values.drop_last());
            before.lemma_insert_consistent(values.last());
            if before.free.len() > 0 {
                assert(before.free[before.free.len() - 1] < before.slots.len());
            }
        }
    }

    /// Once a value has been removed, its handle resolves to nothing and
    /// removes nothing, however many values are stored afterwards.
    pub proof fn lemma_removed_handle_stays_dead(self, h: Handle, later: Seq<T>)
        requires
            self.wf(),
            self.contains(h),
            self.room() + 1 >= later.len(),
        ensures
            self.remove(h).0.get(h) is None,
            self.remove(h).0.insert_all(later).get(h) is None,
            self.remove(h).0.insert_all(later).remove(h) == (
                self.remove(h).0.insert_all(later),
                None::<T>,
            ),
    {
        let gone = self.remove(h).0;
        self.lemma_remove_consistent(h);
        gone.lemma_insert_all_keeps_slots(later);
        assert(gone.slots[h.index as int].generation != h.generation);
    }

    /// A handle is dead as soon as the value stored under it has been
    /// removed: for a value stored, then removed, and any values stored after
    /// that, looking it up and removing it again both fail.
    pub proof fn lemma_stored_then_removed_is_dead(self, value: T, later: Seq<T>)
        requires
            self.wf(),
            self.room() > 0,
            self.room() >= later.len(),
        ensures
            ({
                let (stored, h) = self.insert(value);
                let end = stored.remove(h).0.insert_all(later);
                &&& stored.remove(h).1 == Some(value)
                &&& stored.remove(h).0.get(h) is None
                &&& stored.remove(h).0.remove(h).1 is None
                &&& end.get(h) is None
                &&& end.remove(h).1 is None
            }),
    {
        let (stored, h) = self.insert(value);
        self.lemma_insert_consistent(value);
        self.lemma_insert_then_get(value);
        stored.lemma_removed_handle_stays_dead(h, later);
    }

    /// A slot that is emptied and filled again answers to its new handle
    /// only: the new handle has the same index and the next generation, the
    /// old handle resolves to nothing, the new one to the new value.
    pub proof fn lemma_reuse_changes_generation(self, first: T, second: T)
        requires
            self.wf(),
            self.room() > 0,
        ensures
            ({
                let (a1, h1) = self.insert(first);
                let a2 = a1.remove(h1).0;
                let (a3, h2) = a2.insert(second);
                &&& h2.index == h1.index
                &&& h2.generation == next_generation(h1.generation)
                &&& h1 != h2
                &&& a3.get(h1) is None
                &&& a3.get(h2) == Some(second)
            }),
    {
        let (a1, h1) = self.insert(first);
        self.lemma_insert_consistent(first);
        self.lemma_insert_then_get(first);
        let a2 = a1.remove(h1).0;
        a1.lemma_remove_consistent(h1);
        a2.lemma_insert_then_get(second);
        assert(a2.free[a2.free.len() - 1] == h1.index as u32);
    }

    /// Removing through handles that are valid and all different keeps the
    /// arena consistent and lowers the count by their number; a valid handle
    /// that is not among them keeps its value.
    pub proof fn lemma_remove_all_counts(self, handles: Seq<Handle>)
        requires
            self.wf(),
            handles.no_duplicates(),
            forall|j: int| 0 <= j < handles.len() ==> self.contains(#[trigger] handles[j]),
        ensures
            self.remove_all(handles).wf(),
            self.remove_all(handles).len() + handles.len() == self.len(),
            forall|h: Handle|
                self.contains(h) && !handles.contains(h) ==> #[trigger] self.remove_all(handles).get(
                    h,
                ) == self.get(h),
        decreases handles.len(),
    {
        if handles.len() > 0 {
            let front = handles.drop_last();
            let last = handles.last();
            let before = self.remove_all(front);
            assert forall|j: int| 0 <= j < front.len() implies self.contains(
                #[trigger] front[j],
            ) by {
                assert(front[j] == handles[j]);
            }
            self.lemma_remove_all_counts(front);
            assert(!front.contains(last)) by {
                if front.contains(last) {
                    let j = choose|j: int| 0 <= j < front.len() && front[j] == last;
                    assert(handles[j] == handles[handles.len() - 1]);
                }
            }
            assert(before.get(last) == self.get(last));
            before.lemma_remove_consistent(last);
            assert forall|h: Handle| self.contains(h) && !handles.contains(h) implies #[trigger] before.remove(
                last,
            ).0.get(h) == self.get(h) by {
                assert(h != last) by {
                    assert(handles[handles.len() - 1] == last);
                }
                assert(!front.contains(h)) by {
                    if front.contains(h) {
                        let j = choose|j: int| 0 <= j < front.len() && front[j] == h;
                        assert(handles[j] == h);
                    }
                }
                assert(before.get(h) == self.get(h));
                before.lemma_remove_keeps_others(last, h);
            }
        }
    }

    /// After storing some values and removing through some of the valid
    /// handles, each at most once, the entries are as many as were there
    /// before, plus those stored, minus those removed; and each entry is a
    /// valid handle with its value.
    pub proof fn lemma_entries_after_inserts_and_removes(self, values: Seq<T>, removed: Seq<Handle>)
        requires
            self.wf(),
            self.room() >= values.len(),
            removed.no_duplicates(),
            forall|j: int|
                0 <= j < removed.len() ==> self.insert_all(values).contains(#[trigger] removed[j]),
        ensures
            ({
                let end = self.insert_all(values).remove_all(removed);
                &&& end.wf()
                &&& removed.len() <= self.len() + values.len()
                &&& end.entries().len() == self.len() + values.len() - removed.len()
                &&& forall|j: int|
                    0 <= j < end.entries().len() ==> end.get((#[trigger] end.entries()[j]).0)
                        == Some(end.entries()[j].1)
            }),
    {
        let full = self.insert_all(values);
        self.lemma_insert_all_keeps_slots(values);
        full.lemma_remove_all_counts(removed);
        full.remove_all(removed).lemma_entries_are_the_valid_handles();
    }
}

} // verus!
