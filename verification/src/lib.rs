//! Spatial indexing and fixed-point movement for a tile-based world.
//!
//! The centre of the crate is [`rtree::RTree`], a bulk-loaded index over
//! axis-aligned integer rectangles that answers intersection queries.
//! Around it stand the pieces of a small game that need no window to run:
//! fixed-point velocities ([`movement`]), a hashed grid of bins ([`grid`]),
//! the state of keys and buttons ([`input`]), the count-down of short-lived
//! entities ([`decay`]) and the texture of the ground ([`texture`]).

pub mod decay;
pub mod grid;
pub mod input;
pub mod movement;
pub mod rtree;
pub mod texture;
