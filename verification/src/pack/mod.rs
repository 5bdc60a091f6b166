//! The starter pack: which sounds play for which event out of the box.

pub mod catalog;
pub mod manifest;
