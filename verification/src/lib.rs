//! Evolutionary search over fixed-length bit strings.
//!
//! A population of chromosomes is evolved towards the all-ones string by
//! parent selection, single-point crossover and single-bit mutation. Every
//! function is stated over the mathematical view of its arguments and proved
//! against that statement.
//!
//! Whatever depends on chance comes in two forms: a function that takes the
//! draws as arguments and says exactly what it returns for them, and a
//! function of the same purpose that takes the draws from the random source
//! and says what holds whatever was drawn.

pub mod breeding;
pub mod chromosome;
pub mod config;
pub mod evolution;
pub mod operators;
pub mod population;
pub mod random;
pub mod selection;
