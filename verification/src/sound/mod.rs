//! Sound selection: which file of a group plays when an event fires.

pub mod bus;
pub mod cache;
pub mod probe;
pub mod rng;
pub mod selection;
