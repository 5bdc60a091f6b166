//! Event detection: what narration means, and whether it should fire now.

pub mod corpus;
pub mod engine;
pub mod event;
pub mod fuzzy;
pub mod normalize;
pub mod score;
pub mod stem;
pub mod trigger;
