//! A generational arena: values live in numbered slots, and each handle
//! remembers the generation of the slot it was issued for, so that a handle
//! kept across a removal can never reach the slot's next tenant.

use crate::arena::{Arena, Handle, Slot};
use std::marker::PhantomData;
use vstd::prelude::*;
use vstd::std_specs::cmp::PartialEqSpecImpl;

verus! {

/// A copyable handle to a value of type `T` held in a [`SlotMap`].
///
/// The type parameter only tags the handle; a key owns nothing.
#[derive(Debug, Hash)]
pub struct Key<T> {
    index: u32,
    generation: u32,
    _m: PhantomData<T>,
}

impl<T> View for Key<T> {
    type V = Handle;

    closed spec fn view(&self) -> Handle {
        Handle { index: self.index as nat, generation: self.generation }
    }
}

impl<T> Copy for Key<T> {

}

impl<T> Clone for Key<T> {
    fn clone(&self) -> (r: Self)
        ensures
            r == *self,
    {
        *self
    }
}

impl<T> PartialEq for Key<T> {
    fn eq(&self, other: &Self) -> (r: bool) {
        self.index == other.index && self.generation == other.generation
    }
}

impl<T> PartialEqSpecImpl for Key<T> {
    open spec fn obeys_eq_spec() -> bool {
        true
    }

    open spec fn eq_spec(&self, other: &Self) -> bool {
        self@ == other@
    }
}

impl<T> Eq for Key<T> {

}

impl<T> Key<T> {
    /// The handle to slot `index` at `generation`. Only the arena makes keys.
    fn from_parts(index: u32, generation: u32) -> (k: Self)
        ensures
            k@ == (Handle { index: index as nat, generation }),
    {
        Self { index, generation, _m: PhantomData }
    }

    /// The number of the slot that the key points at.
    fn index(&self) -> (i: usize)
        ensures
            i == self@.index,
    {
        self.index as usize
    }

    /// Two keys are the same key exactly when they name the same slot and
    /// the same generation.
    pub proof fn lemma_equal_iff_same_parts(a: Key<T>, b: Key<T>)
        ensures
            a == b <==> a@ == b@,
            a == b <==> a@.index == b@.index && a@.generation == b@.generation,
    {
    }
}

/// A generational arena of values of type `T`, reached through [`Key`]s.
#[derive(Debug)]
pub struct SlotMap<T> {
    slots: Vec<Slot<T>>,
    free: Vec<u32>,
    len: usize,
}

impl<T> View for SlotMap<T> {
    type V = Arena<T>;

    closed spec fn view(&self) -> Arena<T> {
        Arena { slots: self.slots@, free: self.free@ }
    }
}

impl<T> Default for SlotMap<T> {
    fn default() -> (m: Self)
        ensures
            m.wf(),
            m@ == Arena::<T>::empty(),
    {
        Self { slots: Vec::new(), free: Vec::new(), len: 0 }
    }
}

impl<T> SlotMap<T> {
    /// The arena's own bookkeeping is consistent: the vacancy stack matches
    /// the vacant slots and the stored count is the number of occupied slots.
    pub closed spec fn wf(&self) -> bool {
        &&& self@.wf()
        &&& self.len == self@.len()
    }

    /// What a consistent arena holds is consistent.
    pub proof fn lemma_wf_content(&self)
        requires
            self.wf(),
        ensures
            self@.wf(),
    {
    }

    /// An empty arena.
    pub fn new() -> (m: Self)
        ensures
            m.wf(),
            m@ == Arena::<T>::empty(),
    {
        Self { slots: Vec::new(), free: Vec::new(), len: 0 }
    }

    /// An empty arena with room set aside for `cap` slots.
    pub fn with_capacity(cap: usize) -> (m: Self)
        ensures
            m.wf(),
            m@ == Arena::<T>::empty(),
    {
        Self { slots: Vec::with_capacity(cap), free: Vec::new(), len: 0 }
    }

    /// How many more values the arena can take.
    pub fn room(&self) -> (r: u64)
        requires
            self.wf(),
        ensures
            r == self@.room(),
    {
        4294967296u64 - self.len as u64
    }

    /// Stores `value` and returns the handle that reaches it.
    pub fn insert(&mut self, value: T) -> (key: Key<T>)
        requires
            old(self).wf(),
            old(self)@.room() > 0,
        ensures
            final(self).wf(),
            final(self)@ == old(self)@.insert(value).0,
            key@ == old(self)@.insert(value).1,
    {
        let ghost before = self@;
        match self.free.pop() {
            Some(idx) => {
                let i = idx as usize;
                let generation = self.slots[i].generation;
                self.slots[i].val = Some(value);
                proof {
                    assert(self@ == before.insert(value).0);
                    before.lemma_insert_consistent(value);
                    self@.lemma_entries_below_bound(self@.slots.len());
                    assert(self.slots@.len() == self.slots.len());
                }
                self.len += 1;
                Key::from_parts(idx, generation)
            },
            None => {
                let idx = self.slots.len() as u32;
                self.slots.push(Slot { generation: 0, val: Some(value) });
                proof {
                    assert(self@ == before.insert(value).0);
                    before.lemma_insert_consistent(value);
                    self@.lemma_entries_below_bound(self@.slots.len());
                    assert(self.slots@.len() == self.slots.len());
                }
                self.len += 1;
                Key::from_parts(idx, 0)
            },
        }
    }

    /// Takes the value behind `key` out of the arena, if `key` is valid.
    /// Every handle to that slot is invalid from then on.
    pub fn remove(&mut self, key: Key<T>) -> (r: Option<T>)
        requires
            old(self).wf(),
        ensures
            final(self).wf(),
            final(self)@ == old(self)@.remove(key@).0,
            r == old(self)@.remove(key@).1,
    {
        let ghost before = self@;
        let i = key.index();
        if i >= self.slots.len() {
            return None;
        }
        if self.slots[i].generation != key.generation {
            return None;
        }
        match self.slots[i].val.take() {
            None => {
                assert(self@ == before);
                None
            },
            Some(val) => {
                self.slots[i].generation = key.generation.wrapping_add(1);
                self.free.push(key.index);
                proof {
                    assert(self@ == before.remove(key@).0);
                    before.lemma_remove_consistent(key@);
                }
                self.len -= 1;
                Some(val)
            },
        }
    }

    /// The slot index that `key` reaches, if `key` is valid.
    fn valid_index(&self, key: Key<T>) -> (r: Option<usize>)
        ensures
            r == if self@.contains(key@) {
                Some(key@.index as usize)
            } else {
                None
            },
    {
        let i = key.index();
        if i < self.slots.len() && self.slots[i].generation == key.generation
            && self.slots[i].val.is_some() {
            Some(i)
        } else {
            None
        }
    }

    /// The value behind `key`, if `key` is valid.
    pub fn get(&self, key: Key<T>) -> (r: Option<&T>)
        ensures
            r == match self@.get(key@) {
                Some(v) => Some(&v),
                None => None,
            },
    {
        match self.valid_index(key) {
            Some(i) => self.slots[i].val.as_ref(),
            None => None,
        }
    }

    /// Exclusive access to the value behind `key`, if `key` is valid. What
    /// the caller leaves there is the arena's new value for `key`; nothing
    /// else changes.
    pub fn get_mut(&mut self, key: Key<T>) -> (r: Option<&mut T>)
        ensures
            match r {
                Some(v) => old(self)@.get(key@) == Some(*v) && final(self)@ == old(self)@.set(
                    key@,
                    *final(v),
                ),
                None => old(self)@.get(key@) is None && final(self)@ == old(self)@,
            },
            old(self).wf() ==> final(self).wf(),
    {
        let ghost before = self@;
        match self.valid_index(key) {
            Some(i) => match self.slots[i].val.as_mut() {
                Some(v) => {
                    proof {
                        before.lemma_set_consistent(key@, *final(v));
                    }
                    Some(v)
                },
                None => None,
            },
            None => None,
        }
    }

    /// Every stored value with the handle that reaches it, in slot order.
    pub fn iter(&self) -> (r: Vec<(Key<T>, &T)>)
        requires
            self.wf(),
        ensures
            r@.len() == self@.len(),
            forall|j: int|
                0 <= j < r@.len() ==> (#[trigger] r@[j]).0@ == self@.entries()[j].0 && *r@[j].1
                    == self@.entries()[j].1,
    {
        let mut out: Vec<(Key<T>, &T)> = Vec::new();
        let n = self.slots.len();
        let mut idx: usize = 0;
        while idx < n
            invariant
                self.wf(),
                n == self.slots@.len(),
                idx <= n,
                out@.len() == self@.entries_below(idx as nat).len(),
                forall|j: int|
                    0 <= j < out@.len() ==> (#[trigger] out@[j]).0@ == self@.entries_below(
                        idx as nat,
                    )[j].0 && *out@[j].1 == self@.entries_below(idx as nat)[j].1,
            decreases n - idx,
        {
            let slot = &self.slots[idx];
            match slot.val.as_ref() {
                Some(value) => {
                    out.push((Key::from_parts(idx as u32, slot.generation), value));
                },
                None => {},
            }
            idx += 1;
        }
        out
    }

    /// Every stored value, in slot order.
    pub fn values(&self) -> (r: Vec<&T>)
        requires
            self.wf(),
        ensures
            r@.len() == self@.len(),
            forall|j: int| 0 <= j < r@.len() ==> *(#[trigger] r@[j]) == self@.entries()[j].1,
    {
        let pairs = self.iter();
        let mut out: Vec<&T> = Vec::new();
        let mut j: usize = 0;
        while j < pairs.len()
            invariant
                j <= pairs@.len(),
                out@.len() == j,
                forall|k: int| 0 <= k < j ==> *(#[trigger] out@[k]) == *pairs@[k].1,
            decreases pairs@.len() - j,
        {
            out.push(pairs[j].1);
            j += 1;
        }
        out
    }
}

} // verus!
