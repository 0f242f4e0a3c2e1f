//! Networking logic: which relay server a client talks to, and what it does with a message
//! from the other players.

use vstd::prelude::*;

use crate::anim::AnimSync;
use crate::menu::{first_with_id, has_id, NetGameState};
use crate::player::{Player, PlayerID};

verus! {

/// A message that can be sent over the network
#[derive(Debug)]
pub enum Message {
    /// Join a lobby
    JoinLobby(Player),
    /// Entire game state
    State(NetGameState),
    /// Edit player info
    EditPlayer(PlayerID, Player),
    /// Synchronize animation state
    Anim(AnimSync),
}

/// The relay server for a page served from `hostname`: the local server when the page comes
/// from this machine, the public one otherwise.
pub open spec fn server_address_spec(hostname: Seq<char>) -> Seq<char> {
    if hostname == "127.0.0.1"@ || hostname == "localhost"@ {
        "ws://127.0.0.1:8080"@
    } else {
        "ws://api.dynamaze.fun"@
    }
}

/// The websocket address of the relay server for a page served from `hostname` (see
/// `server_address_spec`).
pub fn server_address(hostname: &String) -> (r: String)
    ensures
        r@ == server_address_spec(hostname@),
{
    let local_ip = "127.0.0.1".to_owned();
    let local_name = "localhost".to_owned();
    if *hostname == local_ip || *hostname == local_name {
        "ws://127.0.0.1:8080".to_owned()
    } else {
        "ws://api.dynamaze.fun".to_owned()
    }
}

/// The message can be handled without fault: an edit of a player in a lobby names a player
/// who is in it.
pub open spec fn incoming_ok(message: &Message, state: &NetGameState) -> bool {
    match (message, state) {
        (Message::EditPlayer(id, _), NetGameState::Lobby(info)) => has_id(info.players@, *id),
        _ => true,
    }
}

/// Handles a message from another player for local player `player_id`, returning the reply
/// to send and the animation to start, if any. In a lobby, a joining player is added at the
/// end (and the host answers with the whole new state), and an edited player replaces the
/// first player with that ID. A whole state replaces the local one. Animations are passed on.
/// Anything else leaves the state as it is.
pub fn handle_incoming(message: Message, state: &mut NetGameState, player_id: PlayerID) -> (r: (
    Option<Message>,
    Option<AnimSync>,
))
    requires
        incoming_ok(&message, &*old(state)),
    ensures
        match message {
            Message::JoinLobby(player) => match *old(state) {
                NetGameState::Lobby(info) => {
                    &&& (*final(state)) is Lobby
                    &&& (*final(state))->Lobby_0.players@ == info.players@.push(player)
                    &&& (*final(state))->Lobby_0.join_secret == info.join_secret
                    &&& r.1 is None
                    &&& if old(state).is_host_spec(player_id) {
                        match r.0 {
                            Some(Message::State(s)) => s.same_state(&*final(state)),
                            _ => false,
                        }
                    } else {
                        r.0 is None
                    }
                },
                _ => *final(state) == *old(state) && r.0 is None && r.1 is None,
            },
            Message::EditPlayer(id, player) => match *old(state) {
                NetGameState::Lobby(info) => {
                    &&& (*final(state)) is Lobby
                    &&& exists|i: int|
                        first_with_id(info.players@, id, i) && #[trigger] (*final(state))->Lobby_0.players@
                            == info.players@.update(i, player)
                    &&& (*final(state))->Lobby_0.join_secret == info.join_secret
                    &&& r.0 is None && r.1 is None
                },
                _ => *final(state) == *old(state) && r.0 is None && r.1 is None,
            },
            Message::State(new_state) => *final(state) == new_state && r.0 is None && r.1 is None,
            Message::Anim(sync) => *final(state) == *old(state) && r.0 is None && r.1 == Some(sync),
        },
{
    let is_host = state.is_host(player_id);
    match message {
        Message::JoinLobby(player) => {
            if let NetGameState::Lobby(ref mut lobby_info) = *state {
                lobby_info.players.push(player);
                if is_host {
                    return (Some(Message::State(state.clone())), None);
                }
            }
            (None, None)
        },
        Message::EditPlayer(id, player) => {
            if let NetGameState::Lobby(ref mut lobby_info) = *state {
                let p = lobby_info.player_mut(id);
                *p = player;
            }
            (None, None)
        },
        Message::State(new_state) => {
            *state = new_state;
            (None, None)
        },
        Message::Anim(sync) => (None, Some(sync)),
    }
}

} // verus!
