//! The bookkeeping of a charged-particle simulation of a vacuum diode:
//! a store of electrons named by handles that never dangle, and a spatial
//! hash grid that finds the electrons close enough to repel each other.
//! The force models themselves work in floating point and live with the
//! program that drives the simulation.

pub mod arena;
mod cells;
pub mod grid;
pub mod scene;
