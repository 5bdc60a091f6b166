//! The models the application can fetch, and the folder that holds them.

pub mod catalog;
pub mod store;
