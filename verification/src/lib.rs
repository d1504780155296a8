//! A point quadtree on the integer grid.
//!
//! A [`Quadtree`] stores [`Point`]s, each carrying a payload, inside a fixed
//! rectangular boundary ([`Qrect`]). Every node keeps at most `capacity`
//! points; a full node splits its boundary into four quadrants and hands
//! further points down to them. Rectangle and circle queries walk only the
//! nodes whose boundary meets the queried region, and hand out copies of the
//! points they find.
//!
//! # The grid
//!
//! Positions are pairs of `i32`; the y axis points down. A rectangle is given
//! by its centre and its half-extents, which are `u32` and so never negative;
//! its edges belong to it. Where a length has to be halved and is odd, centres
//! round down and half-extents round up, so that a rectangle built from a span
//! always holds the span and the four quadrants of a rectangle always cover
//! it: a point that a node accepts is accepted by one of its children.
//!
//! # Contracts
//!
//! Every function states what it returns over a mathematical model: a
//! rectangle is its own model, a tree is modelled by [`TreeModel`]. The module
//! [`laws`] holds what follows for every well-formed tree: which points are
//! accepted, when a node splits, that no point is lost, and what queries
//! return. All of it is checked by Verus.

pub mod laws;
pub mod model;
pub mod point;
pub mod quadtree;
pub mod region;
pub mod sequences;

pub use model::{Quads, TreeModel};
pub use point::Point;
pub use quadtree::Quadtree;
pub use region::{Quadrant, Qrect};
