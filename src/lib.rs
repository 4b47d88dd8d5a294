//! A character-level bigram model of names: normalization, exact counting
//! with additive smoothing, scoring and sampling.

pub mod alphabet;
pub mod normalize;
pub mod counts;
pub mod model;
pub mod score;
pub mod sample;
pub mod corpus;
