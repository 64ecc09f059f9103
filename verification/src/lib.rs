//! The physics and merge core of a falling-ball puzzle.
//!
//! Balls drop under gravity, bounce off walls and off each other, and two balls of one tier
//! that touch merge into one ball of the next tier. A [`world::World`] stores the bodies;
//! [`world::World::step`] runs one frame: movement, collision detection, collision
//! resolution. All quantities are fixed-point integers, see [`fixed`]; every function is
//! verified against a specification over mathematical integers and sequences, and the
//! laws of the simulation are proved in [`laws`] and [`frame_laws`].

pub mod fixed;
pub mod frame_laws;
pub mod laws;
pub mod physics;
pub mod platform;
pub mod scene;
pub mod score;
pub mod world;
pub mod world_lemmas;
