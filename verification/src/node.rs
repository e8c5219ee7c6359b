//! Nodes: the points that segments join.

use crate::arena::{Arena, Handle};
use crate::slotmap::Key;
use crate::world::World;
use glam::Vec2;
use vstd::prelude::*;

verus! {

/// `glam::Vec2`, a pair of coordinates. The store only carries such values
/// from the caller to the node and back: nothing is said of what is in one.
#[verifier::external_type_specification]
#[verifier::external_body]
pub struct ExVec2(glam::Vec2);

/// A point of the road network.
#[derive(Debug, PartialEq)]
pub struct Node {
    pub position: Vec2,
}

impl Clone for Node {
    fn clone(&self) -> (r: Self)
        ensures
            r == *self,
    {
        Node { position: self.position }
    }
}

/// One end of a segment to be created: a node that exists already, or the
/// place where a new node is to be put.
pub enum Endpoint {
    Key(Key<Node>),
    Pos(Vec2),
}

impl Endpoint {
    /// The handle of the node that this endpoint stands for in `nodes`: a
    /// key stands for its node as long as it is valid there, a position for
    /// the node that will be created at it.
    pub open spec fn target(self, nodes: Arena<Node>) -> Option<Handle> {
        match self {
            Endpoint::Key(k) => if nodes.contains(k@) {
                Some(k@)
            } else {
                None
            },
            Endpoint::Pos(_) => Some(nodes.next_handle()),
        }
    }

    /// The node arena once this endpoint has been resolved in `nodes`: a
    /// position has added its node, a key has changed nothing.
    pub open spec fn resolve(self, nodes: Arena<Node>) -> Arena<Node> {
        match self {
            Endpoint::Key(_) => nodes,
            Endpoint::Pos(p) => nodes.insert(Node { position: p }).0,
        }
    }
}

/// Resolving endpoints to nodes.
pub trait NodeExt {
    /// Holds when the store can take the node that `ep` may ask for.
    spec fn ensure_point_fits(&self, ep: Endpoint) -> bool;

    /// Relates the store before the call to the store `after` it and to the
    /// handle `r` that it returned.
    spec fn ensure_point_spec(&self, ep: Endpoint, after: &Self, r: Option<Key<Node>>) -> bool;

    /// The node that `ep` stands for: the key itself if it is valid, a new
    /// node for a position, and nothing for a key that is not valid. No node
    /// is ever created for a key.
    fn ensure_point(&mut self, ep: Endpoint) -> (r: Option<Key<Node>>)
        requires
            old(self).ensure_point_fits(ep),
        ensures
            old(self).ensure_point_spec(ep, final(self), r),
    ;
}

impl NodeExt for World {
    open spec fn ensure_point_fits(&self, ep: Endpoint) -> bool {
        &&& self.wf()
        &&& ep is Pos ==> self.nodes@.room() > 0
    }

    open spec fn ensure_point_spec(&self, ep: Endpoint, after: &Self, r: Option<Key<Node>>) -> bool {
        match ep {
            Endpoint::Key(k) => {
                &&& *after == *self
                &&& r == if self.nodes@.contains(k@) {
                    Some(k)
                } else {
                    None
                }
            },
            Endpoint::Pos(p) => {
                &&& r matches Some(k)
                &&& k@ == self.nodes@.next_handle()
                &&& after.nodes@ == self.nodes@.insert(Node { position: p }).0
                &&& after.segments == self.segments
                &&& after.roads == self.roads
                &&& after.wf()
            },
        }
    }

    fn ensure_point(&mut self, ep: Endpoint) -> (r: Option<Key<Node>>) {
        match ep {
            Endpoint::Key(k) => if self.get(k).is_some() {
                Some(k)
            } else {
                None
            },
            Endpoint::Pos(p) => Some(self.add(Node { position: p })),
        }
    }
}

} // verus!
