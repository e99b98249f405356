//! A two-dimensional rigid-body puzzle engine with machine-checked contracts.
//!
//! Circular bodies, line-segment walls and anchor springs are advanced by a
//! fixed-order step: springs, integration, arena boundaries, pairwise
//! collisions, walls. All quantities are fixed-point numbers with nine
//! decimal places, so every result is exactly defined, the same on every
//! machine, and open to proof.
//!
//! Every type has a mathematical model, its view, and every operation
//! states over the models exactly what it computes:
//!
//! - [`fixed`] and [`vec2`]: numbers and vectors;
//! - [`body`] and [`scenario`]: bodies, walls, springs, and whole puzzles;
//! - [`integrator`], [`boundary`], [`collision`], [`walls`]: the stages of
//!   a step;
//! - [`sim`]: the game, its events and its frames;
//! - [`levels`] and [`spawn`]: the built-in puzzles, and random balls for
//!   free play;
//! - [`laws`], with [`rounding`]: what holds of every game, proved.

pub mod fixed;
pub mod vec2;
pub mod body;
pub mod scenario;
pub mod integrator;
pub mod boundary;
pub mod collision;
pub mod walls;
pub mod levels;
pub mod sim;
pub mod spawn;
pub mod rounding;
pub mod laws;
