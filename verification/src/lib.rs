//! Core of a hexagonal-column voxel world: a deterministic procedural
//! terrain generator, the pillar data structure holding run-length encoded
//! material intervals, and the runtime queries and mutations on it
//! (ray-pick selection and column excavation).
//!
//! Real-valued lengths are carried as 64-bit integers in units of 1/65536
//! (see [`coords::FIX_ONE`]); presentation code converts at the boundary.

pub mod chunk;
pub mod coords;
pub mod gen;
pub mod pillar;
pub mod rng;
pub mod trig;
pub mod world;
