//! The entity store: one arena per kind of entity, behind one typed interface.

use crate::arena::Arena;
use crate::node::Node;
use crate::road::Road;
use crate::segment::Segment;
use crate::slotmap::{Key, SlotMap};
use vstd::prelude::*;

verus! {

/// The store of a road network: its nodes, its segments and its roads.
#[derive(Debug)]
pub struct World {
    pub nodes: SlotMap<Node>,
    pub segments: SlotMap<Segment>,
    pub roads: SlotMap<Road>,
}

/// Gives a store its arena for entities of type `T`.
pub trait WorldStore<T> {
    /// The arena that holds the entities of type `T`.
    spec fn arena(&self) -> SlotMap<T>;

    /// Holds when `other` differs from `self` in nothing but that arena.
    spec fn same_elsewhere(&self, other: &Self) -> bool;

    /// The arena of `T`, to read.
    fn store(&self) -> (s: &SlotMap<T>)
        ensures
            *s == self.arena(),
    ;

    /// The arena of `T`, to change: what the caller leaves in it is the
    /// store's arena of `T` from then on, and nothing else in the store
    /// changes.
    fn store_mut(&mut self) -> (s: &mut SlotMap<T>)
        ensures
            *s == old(self).arena(),
            final(self).arena() == *final(s),
            old(self).same_elsewhere(final(self)),
    ;
}

impl World {
    /// Every arena of the store is consistent.
    pub open spec fn wf(&self) -> bool {
        &&& self.nodes.wf()
        &&& self.segments.wf()
        &&& self.roads.wf()
    }

    /// A store with no entities.
    pub fn new() -> (w: Self)
        ensures
            w.wf(),
            w.nodes@ == Arena::<Node>::empty(),
            w.segments@ == Arena::<Segment>::empty(),
            w.roads@ == Arena::<Road>::empty(),
    {
        World { nodes: SlotMap::new(), segments: SlotMap::new(), roads: SlotMap::new() }
    }

    /// Stores `v` in the arena of its kind.
    pub fn add<T>(&mut self, v: T) -> (k: Key<T>) where Self: WorldStore<T>
        requires
            WorldStore::<T>::arena(old(self)).wf(),
            WorldStore::<T>::arena(old(self))@.room() > 0,
        ensures
            WorldStore::<T>::arena(final(self)).wf(),
            WorldStore::<T>::arena(final(self))@ == WorldStore::<T>::arena(old(self))@.insert(v).0,
            k@ == WorldStore::<T>::arena(old(self))@.insert(v).1,
            WorldStore::<T>::same_elsewhere(old(self), final(self)),
    {
        self.store_mut().insert(v)
    }

    /// The entity behind `k`, if `k` is valid.
    pub fn get<T>(&self, k: Key<T>) -> (r: Option<&T>) where Self: WorldStore<T>
        ensures
            r == match WorldStore::<T>::arena(self)@.get(k@) {
                Some(v) => Some(&v),
                None => None,
            },
    {
        self.store().get(k)
    }

    /// Exclusive access to the entity behind `k`, if `k` is valid.
    pub fn get_mut<T>(&mut self, k: Key<T>) -> (r: Option<&mut T>) where Self: WorldStore<T>
        ensures
            match r {
                Some(v) => WorldStore::<T>::arena(old(self))@.get(k@) == Some(*v)
                    && WorldStore::<T>::arena(final(self))@ == WorldStore::<T>::arena(
                    old(self),
                )@.set(k@, *final(v)),
                None => WorldStore::<T>::arena(old(self))@.get(k@) is None
                    && WorldStore::<T>::arena(final(self))@ == WorldStore::<T>::arena(old(self))@,
            },
            WorldStore::<T>::arena(old(self)).wf() ==> WorldStore::<T>::arena(final(self)).wf(),
            WorldStore::<T>::same_elsewhere(old(self), final(self)),
    {
        self.store_mut().get_mut(k)
    }

    /// Takes the entity behind `k` out of the store, if `k` is valid.
    pub fn remove<T>(&mut self, k: Key<T>) -> (r: Option<T>) where Self: WorldStore<T>
        requires
            WorldStore::<T>::arena(old(self)).wf(),
        ensures
            WorldStore::<T>::arena(final(self)).wf(),
            WorldStore::<T>::arena(final(self))@ == WorldStore::<T>::arena(old(self))@.remove(k@).0,
            r == WorldStore::<T>::arena(old(self))@.remove(k@).1,
            WorldStore::<T>::same_elsewhere(old(self), final(self)),
    {
        self.store_mut().remove(k)
    }
}

impl WorldStore<Node> for World {
    open spec fn arena(&self) -> SlotMap<Node> {
        self.nodes
    }

    open spec fn same_elsewhere(&self, other: &Self) -> bool {
        self.segments == other.segments && self.roads == other.roads
    }

    fn store(&self) -> &SlotMap<Node> {
        &self.nodes
    }

    fn store_mut(&mut self) -> &mut SlotMap<Node> {
        &mut self.nodes
    }
}

impl WorldStore<Segment> for World {
    open spec fn arena(&self) -> SlotMap<Segment> {
        self.segments
    }

    open spec fn same_elsewhere(&self, other: &Self) -> bool {
        self.nodes == other.nodes && self.roads == other.roads
    }

    fn store(&self) -> &SlotMap<Segment> {
        &self.segments
    }

    fn store_mut(&mut self) -> &mut SlotMap<Segment> {
        &mut self.segments
    }
}

impl WorldStore<Road> for World {
    open spec fn arena(&self) -> SlotMap<Road> {
        self.roads
    }

    open spec fn same_elsewhere(&self, other: &Self) -> bool {
        self.nodes == other.nodes && self.segments == other.segments
    }

    fn store(&self) -> &SlotMap<Road> {
        &self.roads
    }

    fn store_mut(&mut self) -> &mut SlotMap<Road> {
        &mut self.roads
    }
}

} // verus!
