//! Network control messages, shared by the game and the relay server

use vstd::prelude::*;

verus! {

/// The ID of a game on the relay server
pub type GameID = u64;

/// A network control message
#[derive(Debug)]
pub enum MetaMessage {
    /// Join the given game (leaving any other)
    Join(GameID),
    /// Leave the current game
    Leave,
    /// Pass these bytes on to the other players of the current game
    Message(Vec<u8>),
}

} // verus!
