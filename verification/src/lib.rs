//! Random passwords under constraints: a target length, the character
//! classes to draw from, and characters that must never appear.
//!
//! [`generate`] builds the pool of admissible characters, draws one seed
//! from every class that still has a character, fills up from the pool and
//! shuffles. Its contract says when it fails, which bounds it hands to the
//! entropy source, and which password follows from the values that come
//! back. What it promises of the password holds for every such value.
//!
//! Taken on trust: that `rand` returns an index below the bound it is
//! given ([`entropy`]), and that `String::push` appends ([`text`]).
//! Nothing is claimed about how the indices are distributed.

pub mod classes;
pub mod config;
pub mod entropy;
pub mod filtering;
pub mod generator;
pub mod laws;
pub mod request;
pub mod shuffle;
pub mod text;

pub use classes::{CharacterClass, ClassSet};
pub use config::GenerationConfig;
pub use entropy::{RandomSource, ReplaySource, ThreadSource};
pub use generator::{generate, GenerationError};
pub use request::{generate_batch, validate, RequestError};
