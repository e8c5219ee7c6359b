//! Segments: the edges of the road network.

use crate::arena::{Arena, Handle};
use crate::node::{Endpoint, Node, NodeExt};
use crate::road::{road_gained, Road, RoadExt};
use crate::slotmap::Key;
use crate::world::World;
use glam::Vec2;
use vstd::prelude::*;

verus! {

/// An edge between two distinct nodes, optionally part of a road.
#[derive(Debug, Clone)]
pub struct Segment {
    pub a: Key<Node>,
    pub b: Key<Node>,
    pub road: Option<Key<Road>>,
}

impl Segment {
    /// The two nodes that the segment joins, as long as both are still in
    /// the store.
    pub fn endpoints<'a>(&self, world: &'a World) -> (r: Option<(&'a Node, &'a Node)>)
        ensures
            r == match (world.nodes@.get(self.a@), world.nodes@.get(self.b@)) {
                (Some(a), Some(b)) => Some((&a, &b)),
                _ => None,
            },
    {
        match (world.nodes.get(self.a), world.nodes.get(self.b)) {
            (Some(a), Some(b)) => Some((a, b)),
            _ => None,
        }
    }
}

/// The nodes that a segment from `a` to `b` would join: what `a` resolves to
/// in `nodes` and what `b` resolves to after that, where both resolve and the
/// two differ.
pub open spec fn joined(nodes: Arena<Node>, a: Endpoint, b: Endpoint) -> Option<(Handle, Handle)> {
    match a.target(nodes) {
        None => None,
        Some(ha) => match b.target(a.resolve(nodes)) {
            None => None,
            Some(hb) => if ha == hb {
                None
            } else {
                Some((ha, hb))
            },
        },
    }
}

/// The node arena that resolving `a` and then `b` leaves. Where `a` does not
/// resolve, `b` is not looked at.
pub open spec fn nodes_after(nodes: Arena<Node>, a: Endpoint, b: Endpoint) -> Arena<Node> {
    if a.target(nodes) is None {
        nodes
    } else {
        b.resolve(a.resolve(nodes))
    }
}

/// The number of nodes that resolving `a` and then `b` creates.
pub open spec fn nodes_created(nodes: Arena<Node>, a: Endpoint, b: Endpoint) -> nat {
    if a.target(nodes) is None {
        0
    } else {
        (if a is Pos {
            1nat
        } else {
            0nat
        }) + (if b is Pos {
            1nat
        } else {
            0nat
        })
    }
}

/// Creating segments.
pub trait SegmentExt {
    /// Holds when a segment from `a` to `b` on `road` is owed: both ends
    /// resolve to different nodes, and the road, if one is given, exists.
    spec fn joins(&self, road: Option<Key<Road>>, a: Endpoint, b: Endpoint) -> bool;

    /// Holds when the store can take the nodes and the segment that the call
    /// will create.
    spec fn add_segment_fits(&self, road: Option<Key<Road>>, a: Endpoint, b: Endpoint) -> bool;

    /// Relates the store before the call to the store `after` it and to the
    /// handle `r` that it returned.
    spec fn add_segment_spec(
        &self,
        road: Option<Key<Road>>,
        a: Endpoint,
        b: Endpoint,
        after: &Self,
        r: Option<Key<Segment>>,
    ) -> bool;

    /// Joins `a` and `b` by a new segment and, where `road` is given, makes
    /// it the last segment of that road. The ends are resolved first, `a`
    /// before `b`; then the call fails, creating no segment and touching no
    /// road, if an end did not resolve, if both ends are the same node, or if
    /// `road` is not valid.
    fn add_segment(&mut self, road: Option<Key<Road>>, a: Endpoint, b: Endpoint) -> (r: Option<
        Key<Segment>,
    >)
        requires
            old(self).add_segment_fits(road, a, b),
        ensures
            old(self).add_segment_spec(road, a, b, final(self), r),
    ;
}

impl SegmentExt for World {
    open spec fn joins(&self, road: Option<Key<Road>>, a: Endpoint, b: Endpoint) -> bool {
        &&& joined(self.nodes@, a, b) is Some
        &&& road matches Some(rk) ==> self.roads@.contains(rk@)
    }

    open spec fn add_segment_fits(&self, road: Option<Key<Road>>, a: Endpoint, b: Endpoint) -> bool {
        &&& self.wf()
        &&& self.nodes@.room() >= nodes_created(self.nodes@, a, b)
        &&& self.joins(road, a, b) ==> self.segments@.room() > 0
    }

    open spec fn add_segment_spec(
        &self,
        road: Option<Key<Road>>,
        a: Endpoint,
        b: Endpoint,
        after: &Self,
        r: Option<Key<Segment>>,
    ) -> bool {
        &&& after.wf()
        &&& after.nodes@ == nodes_after(self.nodes@, a, b)
        &&& match r {
            Some(k) => {
                &&& self.joins(road, a, b)
                &&& k@ == self.segments@.next_handle()
                &&& after.segments@.get(k@) matches Some(seg)
                &&& joined(self.nodes@, a, b) == Some((seg.a@, seg.b@))
                &&& seg.road == road
                &&& after.segments@ == self.segments@.insert(seg).0
                &&& match road {
                    Some(rk) => road_gained(self.roads@, after.roads@, rk@, k),
                    None => after.roads == self.roads,
                }
            },
            None => {
                &&& !self.joins(road, a, b)
                &&& after.segments == self.segments
                &&& after.roads == self.roads
            },
        }
    }

    fn add_segment(&mut self, road: Option<Key<Road>>, a: Endpoint, b: Endpoint) -> (r: Option<
        Key<Segment>,
    >) {
        let ghost before = *self;
        let ghost first = a;
        let ka = match self.ensure_point(a) {
            Some(k) => k,
            None => {
                return None;
            },
        };
        proof {
            before.nodes.lemma_wf_content();
            before.segments.lemma_wf_content();
            if let Endpoint::Pos(p) = first {
                before.nodes@.lemma_insert_consistent(Node { position: p });
            }
        }
        let kb = match self.ensure_point(b) {
            Some(k) => k,
            None => {
                return None;
            },
        };
        if ka == kb {
            return None;
        }
        if let Some(rk) = road {
            if self.get(rk).is_none() {
                return None;
            }
        }
        let segment = Segment { a: ka, b: kb, road };
        proof {
            before.segments@.lemma_insert_then_get(segment);
        }
        let seg = self.add(segment);
        if let Some(rk) = road {
            match self.get_mut(rk) {
                Some(r) => {
                    r.segments.push(seg);
                },
                None => {},
            }
        }
        Some(seg)
    }
}

/// A segment needs two different nodes: where both ends resolve to the same
/// node, no segment is created and no road is touched; between a key and
/// itself the nodes stay as they were, too.
pub proof fn lemma_same_node_is_refused(
    w: World,
    road: Option<Key<Road>>,
    a: Endpoint,
    b: Endpoint,
    after: World,
    r: Option<Key<Segment>>,
)
    requires
        w.add_segment_spec(road, a, b, &after, r),
        a.target(w.nodes@) == b.target(a.resolve(w.nodes@)),
    ensures
        r is None,
        after.segments == w.segments,
        after.roads == w.roads,
        a is Key && b is Key ==> after.nodes@ == w.nodes@,
{
}

/// Two positions always get a segment, between two new and different nodes,
/// also where the two positions are the same.
pub proof fn lemma_two_positions_are_joined(
    w: World,
    road: Option<Key<Road>>,
    p: Vec2,
    q: Vec2,
    after: World,
    r: Option<Key<Segment>>,
)
    requires
        w.add_segment_fits(road, Endpoint::Pos(p), Endpoint::Pos(q)),
        road matches Some(rk) ==> w.roads@.contains(rk@),
        w.add_segment_spec(road, Endpoint::Pos(p), Endpoint::Pos(q), &after, r),
    ensures
        r matches Some(k) && after.segments@.get(k@) matches Some(seg) && seg.a != seg.b
            && !w.nodes@.contains(seg.a@) && !w.nodes@.contains(seg.b@) && after.nodes@.get(seg.a@)
            == Some(Node { position: p }) && after.nodes@.get(seg.b@) == Some(
            Node { position: q },
        ),
{
    let n0 = w.nodes@;
    let first = Node { position: p };
    let second = Node { position: q };
    let (n1, h1) = n0.insert(first);
    let (n2, h2) = n1.insert(second);
    w.nodes.lemma_wf_content();
    n0.lemma_insert_consistent(first);
    n0.lemma_insert_then_get(first);
    n1.lemma_insert_then_get(second);
    n1.lemma_insert_keeps_others(second, h1);
    n0.lemma_next_handle_is_new();
    if n0.contains(h2) {
        n0.lemma_insert_keeps_others(first, h2);
        n1.lemma_next_handle_is_new();
    }
}

/// A new segment is anchored: its ends are two different nodes of the
/// store, and the road it was given, if any, lists it last.
pub proof fn lemma_new_segment_is_anchored(
    w: World,
    road: Option<Key<Road>>,
    a: Endpoint,
    b: Endpoint,
    after: World,
    k: Key<Segment>,
)
    requires
        w.add_segment_fits(road, a, b),
        w.add_segment_spec(road, a, b, &after, Some(k)),
    ensures
        after.segments@.get(k@) matches Some(seg) && seg.a != seg.b && after.nodes@.contains(seg.a@)
            && after.nodes@.contains(seg.b@) && seg.road == road,
        road matches Some(rk) ==> after.roads@.get(rk@) matches Some(listed)
            && listed.segments@.len() > 0 && listed.segments@.last() == k,
{
    let n0 = w.nodes@;
    let n1 = a.resolve(n0);
    let n2 = b.resolve(n1);
    let ha = a.target(n0)->0;
    let hb = b.target(n1)->0;
    w.nodes.lemma_wf_content();
    match a {
        Endpoint::Pos(p) => {
            n0.lemma_insert_consistent(Node { position: p });
            n0.lemma_insert_then_get(Node { position: p });
        },
        Endpoint::Key(_) => {},
    }
    match b {
        Endpoint::Pos(q) => {
            n1.lemma_insert_then_get(Node { position: q });
            n1.lemma_insert_keeps_others(Node { position: q }, ha);
        },
        Endpoint::Key(_) => {},
    }
}

/// A road that was removed takes no segment: for a road created and then
/// removed, the call fails, and it leaves the segments and the roads of the
/// store as they were.
pub proof fn lemma_removed_road_takes_no_segment(
    w0: World,
    name: String,
    w1: World,
    rk: Key<Road>,
    w2: World,
    a: Endpoint,
    b: Endpoint,
    w3: World,
    r: Option<Key<Segment>>,
)
    requires
        w0.add_road_spec(name, &w1, rk),
        w2.roads@ == w1.roads@.remove(rk@).0,
        w2.add_segment_spec(Some(rk), a, b, &w3, r),
    ensures
        r is None,
        w3.segments == w2.segments,
        w3.roads == w2.roads,
{
}

/// A road lists its segments in the order in which they were added: two
/// segments added to the same road one after the other come last in its
/// list, in that order; on a road that had none, they are its whole list.
pub proof fn lemma_road_keeps_order(
    w0: World,
    rk: Key<Road>,
    a1: Endpoint,
    b1: Endpoint,
    w1: World,
    s1: Key<Segment>,
    a2: Endpoint,
    b2: Endpoint,
    w2: World,
    s2: Key<Segment>,
)
    requires
        w0.add_segment_spec(Some(rk), a1, b1, &w1, Some(s1)),
        w1.add_segment_spec(Some(rk), a2, b2, &w2, Some(s2)),
    ensures
        w0.roads@.get(rk@) matches Some(r0) && w2.roads@.get(rk@) matches Some(r2) && r2.name
            == r0.name && r2.segments@ == r0.segments@.push(s1).push(s2) && (r0.segments@.len() == 0
            ==> r2.segments@ == seq![s1, s2]),
{
}

} // verus!
