//! Route stitching over a precomputed road network.
//!
//! The library resolves routing requests over an immutable node array and a
//! precomputed shortest-path engine: it parses the binary node file, queries
//! the engine for each consecutive waypoint pair, and assembles the per-pair
//! node paths into one ordered route annotated with stop indices.

pub mod engine;
pub mod loader;
pub mod route;
