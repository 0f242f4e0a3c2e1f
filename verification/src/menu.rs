//! Game menu logic: lobbies, the synchronized state of a network game, and the screens of the
//! game.

use vstd::prelude::*;

use crate::controller::{copy_players, ids_of, lists_roster, roster, BoardController, BoardSettings, TurnState};
use crate::options::GameOptions;
use crate::player::{Color, Player, PlayerID};

verus! {

/// Whether `players[i]` is the first player with the given ID.
pub open spec fn first_with_id(players: Seq<Player>, id: PlayerID, i: int) -> bool {
    &&& 0 <= i < players.len()
    &&& players[i].id == id
    &&& forall|j: int| 0 <= j < i ==> (#[trigger] players[j]).id != id
}

/// Whether some player has the given ID.
pub open spec fn has_id(players: Seq<Player>, id: PlayerID) -> bool {
    exists|i: int| 0 <= i < players.len() && players[i].id == id
}

/// The index of the first player with the given ID, if any.
fn find_player(players: &Vec<Player>, id: PlayerID) -> (r: Option<usize>)
    ensures
        match r {
            Some(i) => first_with_id(players@, id, i as int),
            None => !has_id(players@, id),
        },
{
    let mut k: usize = 0;
    while k < players.len()
        invariant
            k <= players@.len(),
            forall|j: int| 0 <= j < k ==> (#[trigger] players@[j]).id != id,
        decreases players@.len() - k,
    {
        if players[k].id == id {
            return Some(k);
        }
        k = k + 1;
    }
    None
}

/// Lobby information
#[derive(Debug)]
pub struct LobbyInfo {
    /// Currently connected players
    pub players: Vec<Player>,
    /// Activity join secret (may still be loading)
    pub join_secret: Option<String>,
}

impl LobbyInfo {
    /// Creates a new lobby holding just the given player, colored `#b233b2`
    pub fn new(player_id: PlayerID, name: String) -> (r: LobbyInfo)
        ensures
            r.players@ == seq![Player { name, color: Color(178, 51, 178), id: player_id, parent: None }],
            r.join_secret is None,
    {
        LobbyInfo { players: vec![Player::new(name, Color(178, 51, 178), player_id)], join_secret: None }
    }

    /// Gets the first player with the given ID, if any
    pub fn player(&self, id: PlayerID) -> (r: Option<&Player>)
        ensures
            match r {
                Some(p) => exists|i: int| first_with_id(self.players@, id, i) && *p == #[trigger] self.players@[i],
                None => !has_id(self.players@, id),
            },
    {
        match find_player(&self.players, id) {
            Some(i) => Some(&self.players[i]),
            None => None,
        }
    }

    /// Gets the first player with the given ID, to change
    pub fn player_mut(&mut self, id: PlayerID) -> (r: &mut Player)
        requires
            has_id(old(self).players@, id),
        ensures
            exists|i: int|
                first_with_id(old(self).players@, id, i) && *r == old(self).players@[i]
                    && #[trigger] final(self).players@ == old(self).players@.update(i, *final(r)),
            final(self).join_secret == old(self).join_secret,
    {
        match find_player(&self.players, id) {
            Some(i) => &mut self.players[i],
            None => {
                proof {
                    assert(false);
                }
                &mut self.players[0]
            },
        }
    }

    /// The two lobbies hold the same players and join secret.
    pub open spec fn same_lobby(&self, other: &LobbyInfo) -> bool {
        self.players@ == other.players@ && self.join_secret == other.join_secret
    }
}

impl Clone for LobbyInfo {
    fn clone(&self) -> (r: Self)
        ensures
            r.same_lobby(self),
    {
        LobbyInfo { players: copy_players(&self.players), join_secret: self.join_secret.clone() }
    }
}

/// Endgame information
#[derive(Debug)]
pub struct GameOverInfo {
    /// Winning player
    pub winner: Player,
}

impl Clone for GameOverInfo {
    fn clone(&self) -> (r: Self)
        ensures
            r.winner == self.winner,
    {
        GameOverInfo { winner: self.winner.clone() }
    }
}

/// Synchronized state of a network game
#[derive(Debug)]
pub enum NetGameState {
    /// Waiting for players to connect
    Lobby(LobbyInfo),
    /// In game
    Active(BoardController),
    /// After game
    GameOver(GameOverInfo),
    /// An error occurred
    Error(String),
}

impl NetGameState {
    /// Whether the two states are the same: the same variant with the same contents.
    pub open spec fn same_state(&self, other: &NetGameState) -> bool {
        match (self, other) {
            (NetGameState::Lobby(a), NetGameState::Lobby(b)) => a.same_lobby(b),
            (NetGameState::Active(a), NetGameState::Active(b)) => a.same_controller(b),
            (NetGameState::GameOver(a), NetGameState::GameOver(b)) => a.winner == b.winner,
            (NetGameState::Error(a), NetGameState::Error(b)) => a == b,
            _ => false,
        }
    }

    /// Whether the given player hosts the game: in a lobby, the player who opened it (listed
    /// first); in a game, its host.
    pub open spec fn is_host_spec(&self, player_id: PlayerID) -> bool {
        match self {
            NetGameState::Lobby(info) => info.players@.len() > 0 && info.players@[0].id == player_id,
            NetGameState::Active(board) => board.host_id == player_id,
            _ => false,
        }
    }

    /// Checks whether the given player hosts the game (see `is_host_spec`)
    pub fn is_host(&self, player_id: PlayerID) -> (r: bool)
        ensures
            r == self.is_host_spec(player_id),
    {
        match self {
            NetGameState::Lobby(info) => info.players.len() > 0 && info.players[0].id == player_id,
            NetGameState::Active(board) => board.host_id == player_id,
            _ => false,
        }
    }

    /// The style class of the page showing this state
    pub fn class_name(&self) -> (r: &'static str)
        ensures
            r@ == match self {
                NetGameState::Lobby(_) => "lobby"@,
                NetGameState::Active(_) => "active"@,
                NetGameState::GameOver(_) => "game-over"@,
                NetGameState::Error(_) => "error"@,
            },
    {
        match self {
            NetGameState::Lobby(_) => "lobby",
            NetGameState::Active(_) => "active",
            NetGameState::GameOver(_) => "game-over",
            NetGameState::Error(_) => "error",
        }
    }
}

impl Clone for NetGameState {
    fn clone(&self) -> (r: Self)
        ensures
            r.same_state(self),
    {
        match self {
            NetGameState::Lobby(info) => NetGameState::Lobby(info.clone()),
            NetGameState::Active(board) => NetGameState::Active(board.clone()),
            NetGameState::GameOver(info) => NetGameState::GameOver(info.clone()),
            NetGameState::Error(text) => NetGameState::Error(text.clone()),
        }
    }
}

/// A screen of the game; `C` is the connection to a network game.
pub enum GameState<C> {
    /// Main menu
    MainMenu,
    /// Joining, with given host:port
    ConnectMenu(String),
    /// Connected, with given connection info and state
    InGame(C),
    /// Errored out in a serious way
    HardError(String),
    /// In options menu
    Options(GameOptions),
}

impl<C> GameState<C> {
    /// The style class of the page showing this screen, outside a game (in a game it is the
    /// class of the game's state, see `NetGameState::class_name`).
    pub fn menu_class(&self) -> (r: Option<&'static str>)
        ensures
            match self {
                GameState::MainMenu => r is Some && r->0@ == "main-menu"@,
                GameState::ConnectMenu(_) => r is Some && r->0@ == "connect-menu"@,
                GameState::InGame(_) => r is None,
                GameState::HardError(_) => r is Some && r->0@ == "hard-error"@,
                GameState::Options(_) => r is Some && r->0@ == "options"@,
            },
    {
        match self {
            GameState::MainMenu => Some("main-menu"),
            GameState::ConnectMenu(_) => Some("connect-menu"),
            GameState::InGame(_) => None,
            GameState::HardError(_) => Some("hard-error"),
            GameState::Options(_) => Some("options"),
        }
    }
}

/// A piece of music
#[derive(PartialEq, Eq, Structural, Clone, Copy, Debug)]
pub enum Music {
    /// Played in the menus
    Menu,
    /// Played during a game
    InGame,
}

/// A sound effect
#[derive(PartialEq, Eq, Structural, Clone, Copy, Debug)]
pub enum Sound {
    /// The local player's turn has come
    YourTurn,
}

/// The music to play, and the player whose turn it is (during a game), given the state of the
/// network game the player is in, if any: in-game music and the active player while a game is
/// running, menu music and nobody otherwise.
pub fn tick_music(net: Option<&NetGameState>) -> (r: (Music, Option<PlayerID>))
    requires
        match net {
            Some(NetGameState::Active(board)) => board.wf(),
            _ => true,
        },
    ensures
        match net {
            Some(NetGameState::Active(board)) => r == (Music::InGame, Some(board.active_id())),
            _ => r == (Music::Menu, None::<PlayerID>),
        },
{
    match net {
        Some(NetGameState::Active(board)) => (Music::InGame, Some(board.active_player_id())),
        _ => (Music::Menu, None),
    }
}

/// Whether to ping the local player `me`: the player whose turn it is just changed, to them.
pub fn turn_ping(last_player: Option<PlayerID>, now_player: Option<PlayerID>, me: PlayerID) -> (r:
    Option<Sound>)
    ensures
        r == if last_player != now_player && now_player == Some(me) {
            Some(Sound::YourTurn)
        } else {
            None
        },
{
    let changed = match (last_player, now_player) {
        (Some(a), Some(b)) => a != b,
        (None, None) => false,
        _ => true,
    };
    let mine = match now_player {
        Some(p) => p == me,
        None => false,
    };
    if changed && mine {
        Some(Sound::YourTurn)
    } else {
        None
    }
}

/// After an input event on a running game, which may have changed the state (`dirty`): a
/// game someone won is over, with the first player to reach the score limit (in order of ID)
/// as the winner. Returns whether the state must be sent to the other players (whenever it
/// may have changed).
pub fn conclude_event(state: &mut NetGameState, dirty: bool) -> (broadcast: bool)
    requires
        match *old(state) {
            NetGameState::Active(board) => board.wf(),
            _ => true,
        },
    ensures
        match *old(state) {
            NetGameState::Active(board) => {
                &&& broadcast == dirty
                &&& if dirty && board.has_winner() {
                    &&& (*final(state)) is GameOver
                    &&& exists|i: int|
                        crate::controller::first_scorer(
                            board.board.player_tokens@,
                            board.settings.score_limit,
                            i,
                        ) && (*final(state))->GameOver_0.winner == #[trigger] board.players@[i]
                } else {
                    *final(state) == *old(state)
                }
            },
            _ => !broadcast && *final(state) == *old(state),
        },
{
    let next = match state {
        NetGameState::Active(board_controller) => {
            if !dirty {
                return false;
            }
            match board_controller.winner() {
                Some(winner) => GameOverInfo { winner: winner.clone() },
                None => {
                    return true;
                },
            }
        },
        _ => {
            return false;
        },
    };
    *state = NetGameState::GameOver(next);
    true
}

/// Starts the lobby's game if the given player hosts it: everybody in the lobby takes part (see
/// `BoardController::new`), with the given settings and that player as host, on the
/// demonstration board when `demo` is set. Returns whether the game started (its state must
/// then be sent to the other players); otherwise nothing changes.
pub fn start_hosted_game(state: &mut NetGameState, me: PlayerID, settings: BoardSettings, demo: bool) -> (started: bool)
    requires
        match *old(state) {
            NetGameState::Lobby(info) => info.players@.len() > 0 && info.players@[0].id == me ==> {
                if demo {
                    roster(info.players@).dom().len() <= 4
                } else {
                    &&& settings.width >= 2
                    &&& settings.height >= 2
                    &&& roster(info.players@).dom().len() < settings.width * settings.height
                }
            },
            _ => true,
        },
    ensures
        started == ((*old(state)) is Lobby && old(state).is_host_spec(me)),
        !started ==> *final(state) == *old(state),
        started ==> (*final(state)) is Active && ({
            let lobby = (*old(state))->Lobby_0.players@;
            let c = (*final(state))->Active_0;
            &&& c.wf()
            &&& lists_roster(c.players@, roster(lobby))
            &&& demo ==> crate::demo::is_demo_board(c.board, c.players@)
            &&& !demo ==> c.board.fresh(settings.width as int, settings.height as int, c.players@)
            &&& demo ==> c.turn_order@ == ids_of(lobby)
            &&& c.turn_order@.to_multiset() == ids_of(lobby).to_multiset()
            &&& c.highlighted_tile == c.board.token_of(c.turn_order@[0]).position
            &&& c.host_id == me
            &&& c.turn_state == TurnState::InsertTile
            &&& c.settings == settings
        }),
{
    let players = match state {
        NetGameState::Lobby(info) => {
            if info.players.len() > 0 && info.players[0].id == me {
                copy_players(&info.players)
            } else {
                return false;
            }
        },
        _ => {
            return false;
        },
    };
    *state = NetGameState::Active(BoardController::new(settings, players, me, demo));
    true
}

/// Adds a player living with `me` to the lobby: named after `me`'s (first) entry with
/// `" - Copy"` appended, with the given color and ID. Returns the new player and whether `me`
/// hosts the lobby (the host then sends the whole lobby to the others; a guest announces the
/// new player). Without a lobby holding `me`, nothing changes and `None` is returned.
pub fn add_local_player(state: &mut NetGameState, me: PlayerID, child_id: PlayerID, color: Color) -> (r: Option<
    (Player, bool),
>)
    ensures
        match *old(state) {
            NetGameState::Lobby(info) => if has_id(info.players@, me) {
                &&& r is Some
                &&& exists|i: int|
                    #![trigger info.players@[i]]
                    first_with_id(info.players@, me, i) && (r->0).0.name@ == info.players@[i].name@
                        + " - Copy"@
                &&& (r->0).0.color == color
                &&& (r->0).0.id == child_id
                &&& (r->0).0.parent == Some(me)
                &&& (r->0).1 == old(state).is_host_spec(me)
                &&& (*final(state)) is Lobby
                &&& (*final(state))->Lobby_0.players@ == info.players@.push((r->0).0)
                &&& (*final(state))->Lobby_0.join_secret == info.join_secret
            } else {
                r is None && *final(state) == *old(state)
            },
            _ => r is None && *final(state) == *old(state),
        },
{
    let is_host = state.is_host(me);
    match state {
        NetGameState::Lobby(info) => {
            let name = match info.player(me) {
                Some(p) => {
                    let mut name = p.name.clone();
                    name.append(" - Copy");
                    name
                },
                None => {
                    return None;
                },
            };
            let child = Player::new_child(name, color, child_id, me);
            info.players.push(child.clone());
            Some((child, is_host))
        },
        _ => None,
    }
}

} // verus!
