//! Core of a chunked, bit-packed falling-granular-material simulator.
//!
//! The plane is tiled with 64x64 chunks. Each chunk row is a pair of `u64`
//! registers: an occupancy mask (a set bit means a particle occupies that
//! column) and a mobility mask (a set bit means the particle may still fall).
//! One simulation tick moves every mobile particle at most one row down,
//! straight or diagonally, under a deterministic, phase-alternated rule.

pub mod bits;
pub mod boundary;
pub mod cells;
pub mod chunk;
pub mod gravity;
pub mod layer;
pub mod mirror;
pub mod scheduler;
pub mod single;
pub mod store;
