//! Roads: named runs of segments.

use crate::arena::{Arena, Handle};
use crate::segment::Segment;
use crate::slotmap::Key;
use crate::world::World;
use vstd::prelude::*;

verus! {

/// A named road and its segments in the order in which they were added.
#[derive(Debug, Clone)]
pub struct Road {
    pub name: String,
    pub segments: Vec<Key<Segment>>,
}

/// Holds when `after` is `before` but for the road behind `rk`, which has
/// kept its name and has `seg` as its new last segment.
pub open spec fn road_gained(
    before: Arena<Road>,
    after: Arena<Road>,
    rk: Handle,
    seg: Key<Segment>,
) -> bool {
    &&& before.get(rk) matches Some(r0)
    &&& after.get(rk) matches Some(r1)
    &&& r1.name == r0.name
    &&& r1.segments@ == r0.segments@.push(seg)
    &&& after == before.set(rk, r1)
}

/// Creating roads.
pub trait RoadExt {
    /// Holds when the store can take one more road.
    spec fn add_road_fits(&self) -> bool;

    /// Relates the store before the call to the store `after` it and to the
    /// handle `r` that it returned.
    spec fn add_road_spec(&self, name: String, after: &Self, r: Key<Road>) -> bool;

    /// A new road called `name`, with no segments yet.
    fn add_road(&mut self, name: String) -> (r: Key<Road>)
        requires
            old(self).add_road_fits(),
        ensures
            old(self).add_road_spec(name, final(self), r),
    ;
}

impl RoadExt for World {
    open spec fn add_road_fits(&self) -> bool {
        &&& self.wf()
        &&& self.roads@.room() > 0
    }

    open spec fn add_road_spec(&self, name: String, after: &Self, r: Key<Road>) -> bool {
        &&& after.wf()
        &&& r@ == self.roads@.next_handle()
        &&& after.roads@.get(r@) matches Some(road)
        &&& road.name == name
        &&& road.segments@ == Seq::<Key<Segment>>::empty()
        &&& after.roads@ == self.roads@.insert(road).0
        &&& after.nodes == self.nodes
        &&& after.segments == self.segments
    }

    fn add_road(&mut self, name: String) -> (r: Key<Road>) {
        let ghost roads = self.roads@;
        let road = Road { name, segments: Vec::new() };
        proof {
            self.roads.lemma_wf_content();
            roads.lemma_insert_then_get(road);
        }
        self.add(road)
    }
}

} // verus!
