//! A two-paddle, one-ball playfield simulation stepped once per frame.
//!
//! All lengths, positions and speeds are integers counted in millionths of a
//! world unit, so that every step of the simulation is exact and verified.
pub mod geometry;
pub mod vector;
pub mod components;
pub mod movement;
pub mod input;
pub mod collision;
pub mod frame;
