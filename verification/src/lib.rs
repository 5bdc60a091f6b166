//! Verified core of a voice-triggered sound engine for tabletop narration.

pub mod clock;
pub mod detect;
pub mod freesound;
pub mod models;
pub mod order;
pub mod pack;
pub mod pipeline;
pub mod semantic;
pub mod sound;
pub mod text;
