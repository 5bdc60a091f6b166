//! The mixer buses every sound plays through.

use vstd::prelude::*;

verus! {

/// A sub-track of the mixer, with its own volume.
#[derive(Debug, Clone, Copy, PartialEq, Eq, Hash, Structural)]
pub enum Bus {
    Sfx,
    Ambience,
    Music,
    Voice,
}

impl Bus {
    /// The bus's name, as used for its track and in settings.
    pub fn name(self) -> (name: &'static str)
        ensures
            name@ == match self {
                Bus::Sfx => "sfx"@,
                Bus::Ambience => "ambience"@,
                Bus::Music => "music"@,
                Bus::Voice => "voice"@,
            },
    {
        match self {
            Bus::Sfx => "sfx",
            Bus::Ambience => "ambience",
            Bus::Music => "music",
            Bus::Voice => "voice",
        }
    }
}

} // verus!
