//! What Freesound tells the library about a sound, and what its licence obliges.

pub mod client;
pub mod license;
pub mod query;
pub mod response;
