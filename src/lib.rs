//! A batch task scheduler driven by simulated annealing.
//!
//! Tasks are ordered by a candidate state (a permutation of task indices),
//! materialized onto per-location timelines, scored by an energy function,
//! and the ordering is improved by Metropolis sweeps at decreasing
//! temperatures.
pub mod task;
pub mod perm;
pub mod calendar;
pub mod energy;
pub mod random;
pub mod anneal;
pub mod reorder;
