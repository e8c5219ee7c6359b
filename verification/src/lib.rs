//! Storage for a road network: a generational arena and, on top of it, a
//! store of nodes, segments and roads that refer to each other by handle.

pub mod arena;
pub mod node;
pub mod road;
pub mod segment;
pub mod slotmap;
pub mod tool;
pub mod world;
