//! Euclidean rhythms: beat patterns, their algebra, and the per-tick
//! decisions of the tracks that play them against a shared clock.

pub mod vector;
pub mod model;
pub mod euclid;
pub mod laws;
pub mod midi;
pub mod timeline;
pub mod track;
