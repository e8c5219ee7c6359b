//! The road tool: what it does with each request while a road is laid out.

use glam::Vec2;
use vstd::prelude::*;

verus! {

/// The two modes of the road tool.
#[derive(Debug, Clone, Copy, PartialEq, Eq, Structural, Hash)]
pub enum RoadToolState {
    Idle,
    Building,
}

impl Default for RoadToolState {
    fn default() -> (s: Self)
        ensures
            s == RoadToolState::Idle,
    {
        RoadToolState::Idle
    }
}

impl RoadToolState {
    /// The mode that a request to toggle asks for: the other one.
    pub fn toggled(self) -> (next: Self)
        ensures
            next == match self {
                RoadToolState::Idle => RoadToolState::Building,
                RoadToolState::Building => RoadToolState::Idle,
            },
    {
        match self {
            RoadToolState::Idle => RoadToolState::Building,
            RoadToolState::Building => RoadToolState::Idle,
        }
    }

    /// The mode that a request to cancel asks for: building stops, and
    /// outside building nothing is asked for.
    pub fn cancelled(self) -> (next: Option<Self>)
        ensures
            next == match self {
                RoadToolState::Building => Some(RoadToolState::Idle),
                RoadToolState::Idle => None,
            },
    {
        match self {
            RoadToolState::Building => Some(RoadToolState::Idle),
            RoadToolState::Idle => None,
        }
    }
}

/// The road that is being laid out: the points placed so far, in order.
pub struct CurrentRoad {
    pub nodes: Vec<Vec2>,
}

impl Default for CurrentRoad {
    fn default() -> (road: Self)
        ensures
            road.nodes@ == Seq::<Vec2>::empty(),
    {
        CurrentRoad { nodes: Vec::new() }
    }
}

impl CurrentRoad {
    /// Forgets the points placed so far.
    pub fn clear(&mut self)
        ensures
            final(self).nodes@ == Seq::<Vec2>::empty(),
    {
        self.nodes.clear();
    }

    /// Takes `at` as the next point while the tool is building; in any other
    /// mode the point is ignored. Says whether the point was taken.
    pub fn place(&mut self, state: RoadToolState, at: Vec2) -> (placed: bool)
        ensures
            placed == (state == RoadToolState::Building),
            final(self).nodes@ == if placed {
                old(self).nodes@.push(at)
            } else {
                old(self).nodes@
            },
    {
        if state == RoadToolState::Building {
            self.nodes.push(at);
            true
        } else {
            false
        }
    }

    /// Whether a request to confirm makes a road of the points placed so
    /// far: the tool must be building, and a road needs two points at least.
    pub fn confirms(&self, state: RoadToolState) -> (yes: bool)
        ensures
            yes == (state == RoadToolState::Building && self.nodes@.len() >= 2),
    {
        state == RoadToolState::Building && self.nodes.len() >= 2
    }
}

} // verus!
