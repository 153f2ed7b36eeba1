//! The core of a sandbox of point masses and distance links: the store that
//! owns the points and the links, and the sequential half of the two force
//! passes of a simulation step, which applies velocity changes to the store.
//!
//! Vectors are carried as macroquad's `Vec2`, whose components this library
//! never reads; a rest distance is carried as the bit pattern of a
//! single-precision number.

pub mod constraint;
pub mod physics_system;
pub mod point;
pub mod simulator;
pub mod system_model;
pub mod vector;
