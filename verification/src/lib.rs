//! Worm foraging: a fixed-point model of agents that chase food on a bounded
//! plane, the parametric policy ("brain") that steers them, the evolutionary
//! search that trains that policy, and the flat record that persists it.
//!
//! Every continuous quantity (position, angle, life, food value) is held in
//! micro-units: the integer `1_000_000` stands for `1.0`. All arithmetic is
//! exact integer arithmetic, so every function here is a total, deterministic
//! function of its arguments and of the explicit random-source state.

pub mod fixed;
pub mod rng;
pub mod trig;
pub mod world;
pub mod brain;
pub mod sim;
pub mod trainer;
pub mod model;
pub mod steer;
