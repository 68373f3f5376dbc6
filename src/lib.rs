//! Flocking agents with a follow-the-leader joint chain trailing each one, in
//! fixed-point arithmetic so that every step is exact and reproducible.

pub mod fixed;
pub mod boids;
pub mod chain;
pub mod world;
