//! A small pairwise Lennard-Jones molecular-dynamics step engine in fixed point.
//!
//! Every real quantity (coordinate, velocity, mass, force, temperature, time step)
//! is an integer count of `1 / SCALE` units. All arithmetic is checked: a step
//! whose result would leave the representable range is refused, never wrapped.
pub mod fixed;
pub mod force;
pub mod particle;
pub mod noise;
pub mod sim;
