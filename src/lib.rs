//! Discrete decisions of a small billiard-ball physics engine: which ball
//! pairs a collision pass visits, which recorded samples an interpolation
//! reads, and how a bounded history of snapshots is kept.

pub mod conf;
pub mod pairs;
pub mod history;
