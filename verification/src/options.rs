//! Player options

use vstd::prelude::*;

verus! {

/// Volume levels chosen by the player, in percent
#[derive(PartialEq, Eq, Structural, Clone, Copy, Debug)]
pub struct GameOptions {
    /// Music volume
    pub music_level: u8,
    /// Sound effect volume
    pub sound_level: u8,
}

impl Default for GameOptions {
    /// Both levels at fifty percent.
    fn default() -> (r: Self)
        ensures
            r == (GameOptions { music_level: 50, sound_level: 50 }),
    {
        GameOptions { music_level: 50, sound_level: 50 }
    }
}

} // verus!
