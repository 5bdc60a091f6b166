//! The listening pipeline's decisions: how microphones are listed, when the microphone
//! is muted, how speech is cut into sentences, and which transcripts are believable.

pub mod buffer;
pub mod devices;
pub mod gate;
pub mod offline;
pub mod session;
pub mod stt;
pub mod types;
pub mod vad;
