use dynamaze::anim::{AnimSync, RotateDir};
use dynamaze::board::{Board, PlayerToken};
use dynamaze::controller::{BoardController, BoardSettings, TurnState};
use dynamaze::menu::{add_local_player, conclude_event, start_hosted_game, tick_music, turn_ping, GameOverInfo, GameState, LobbyInfo, Music, NetGameState, Sound};
use dynamaze::meta_net::MetaMessage;
use dynamaze::net::{handle_incoming, server_address, Message};
use dynamaze::options::GameOptions;
use dynamaze::player::{Color, Player};
use dynamaze::server::{heartbeat_expired, GameServer, GameSession, ServerRequest, SessionAction, SessionEvent};
use dynamaze::tile::{Direction, Tile};

fn player(id: u64) -> Player {
    Player::new(format!("P{}", id), Color(1, 2, 3), id)
}

fn active_game(host: u64) -> BoardController {
    BoardController {
        board: Board {
            cells: Board::parse_board("┌─┐\n│││\n└─┘"),
            loose_tile: Tile::from_char('│').unwrap(),
            loose_tile_position: (Direction::North, 0),
            player_tokens: vec![
                PlayerToken { player_id: 1, position: (0, 0), score: 0 },
                PlayerToken { player_id: 2, position: (2, 2), score: 0 },
            ],
            tutorial_step: None,
        },
        highlighted_tile: (0, 0),
        players: vec![player(1), player(2)],
        host_id: host,
        turn_order: vec![2, 1],
        turn_state: TurnState::InsertTile,
        settings: BoardSettings { width: 3, height: 3, score_limit: 1 },
    }
}

#[test]
fn a_new_lobby_holds_its_host() {
    let lobby = LobbyInfo::new(7, "Host".to_string());
    assert_eq!(lobby.players.len(), 1);
    assert_eq!(lobby.players[0].id, 7);
    assert_eq!(lobby.players[0].name, "Host");
    assert_eq!(lobby.players[0].color, Color(178, 51, 178));
    assert_eq!(lobby.players[0].parent, None);
    assert!(lobby.join_secret.is_none());
}

#[test]
fn lobby_players_are_found_by_id() {
    let mut lobby = LobbyInfo::new(7, "Host".to_string());
    lobby.players.push(player(3));
    lobby.players.push(Player::new("Twin".to_string(), Color(0, 0, 0), 3));
    assert_eq!(lobby.player(3).unwrap().name, "P3");
    assert!(lobby.player(4).is_none());
    lobby.player_mut(3).name = "Renamed".to_string();
    assert_eq!(lobby.players[1].name, "Renamed");
    assert_eq!(lobby.players[2].name, "Twin");
}

#[test]
fn the_host_is_the_lobby_opener_or_the_game_host() {
    let lobby = NetGameState::Lobby(LobbyInfo::new(7, "Host".to_string()));
    assert!(lobby.is_host(7));
    assert!(!lobby.is_host(8));
    let game = NetGameState::Active(active_game(2));
    assert!(game.is_host(2));
    assert!(!game.is_host(1));
    assert!(!NetGameState::Error("x".to_string()).is_host(7));
    assert!(!NetGameState::GameOver(GameOverInfo { winner: player(7) }).is_host(7));
}

#[test]
fn each_screen_has_its_page_class() {
    assert_eq!(NetGameState::Lobby(LobbyInfo::new(1, "a".to_string())).class_name(), "lobby");
    assert_eq!(NetGameState::Active(active_game(1)).class_name(), "active");
    assert_eq!(NetGameState::GameOver(GameOverInfo { winner: player(1) }).class_name(), "game-over");
    assert_eq!(NetGameState::Error("oops".to_string()).class_name(), "error");
    assert_eq!(GameState::<()>::MainMenu.menu_class(), Some("main-menu"));
    assert_eq!(GameState::<()>::ConnectMenu("host:1".to_string()).menu_class(), Some("connect-menu"));
    assert_eq!(GameState::<()>::HardError("bad".to_string()).menu_class(), Some("hard-error"));
    assert_eq!(GameState::<()>::Options(GameOptions::default()).menu_class(), Some("options"));
    assert_eq!(GameState::InGame(()).menu_class(), None);
}

#[test]
fn options_default_to_half_volume() {
    let o = GameOptions::default();
    assert_eq!(o.music_level, 50);
    assert_eq!(o.sound_level, 50);
}

#[test]
fn music_follows_the_game_and_pings_on_your_turn() {
    let game = NetGameState::Active(active_game(1));
    assert_eq!(tick_music(Some(&game)), (Music::InGame, Some(2)));
    let lobby = NetGameState::Lobby(LobbyInfo::new(1, "a".to_string()));
    assert_eq!(tick_music(Some(&lobby)), (Music::Menu, None));
    assert_eq!(tick_music(None), (Music::Menu, None));
    assert_eq!(turn_ping(Some(1), Some(2), 2), Some(Sound::YourTurn));
    assert_eq!(turn_ping(None, Some(2), 2), Some(Sound::YourTurn));
    assert_eq!(turn_ping(Some(2), Some(2), 2), None);
    assert_eq!(turn_ping(Some(2), Some(1), 2), None);
    assert_eq!(turn_ping(Some(2), None, 2), None);
}

#[test]
fn a_won_game_is_over() {
    let mut state = NetGameState::Active(active_game(1));
    assert!(!conclude_event(&mut state, false));
    assert!(conclude_event(&mut state, true));
    assert_eq!(state.class_name(), "active");
    let mut game = active_game(1);
    game.board.player_tokens[1].score = 1;
    let mut state = NetGameState::Active(game);
    assert!(!conclude_event(&mut state, false));
    assert_eq!(state.class_name(), "active");
    assert!(conclude_event(&mut state, true));
    match state {
        NetGameState::GameOver(info) => assert_eq!(info.winner.id, 2),
        _ => panic!("the game should be over"),
    }
    let mut lobby = NetGameState::Lobby(LobbyInfo::new(1, "a".to_string()));
    assert!(!conclude_event(&mut lobby, true));
    assert_eq!(lobby.class_name(), "lobby");
}

#[test]
fn joining_a_lobby_adds_the_player_and_the_host_answers() {
    let mut state = NetGameState::Lobby(LobbyInfo::new(1, "Host".to_string()));
    let (reply, anim) = handle_incoming(Message::JoinLobby(player(5)), &mut state, 1);
    assert!(anim.is_none());
    match (&state, reply) {
        (NetGameState::Lobby(info), Some(Message::State(NetGameState::Lobby(sent)))) => {
            assert_eq!(info.players.len(), 2);
            assert_eq!(info.players[1].id, 5);
            assert_eq!(sent.players.len(), 2);
            assert_eq!(sent.players[1].id, 5);
        },
        _ => panic!("the host should answer with the lobby"),
    }
    let mut guest_view = NetGameState::Lobby(LobbyInfo::new(1, "Host".to_string()));
    let (reply, _) = handle_incoming(Message::JoinLobby(player(5)), &mut guest_view, 5);
    assert!(reply.is_none());
    match guest_view {
        NetGameState::Lobby(info) => assert_eq!(info.players.len(), 2),
        _ => panic!("still a lobby"),
    }
}

#[test]
fn joining_a_running_game_changes_nothing() {
    let mut state = NetGameState::Active(active_game(1));
    let (reply, anim) = handle_incoming(Message::JoinLobby(player(5)), &mut state, 1);
    assert!(reply.is_none() && anim.is_none());
    match state {
        NetGameState::Active(c) => assert_eq!(c.players.len(), 2),
        _ => panic!("still running"),
    }
}

#[test]
fn edits_replace_the_player_and_states_replace_the_state() {
    let mut state = NetGameState::Lobby(LobbyInfo::new(1, "Host".to_string()));
    let (reply, _) = handle_incoming(Message::EditPlayer(1, Player::new("New".to_string(), Color(9, 9, 9), 1)), &mut state, 2);
    assert!(reply.is_none());
    match &state {
        NetGameState::Lobby(info) => {
            assert_eq!(info.players[0].name, "New");
            assert_eq!(info.players[0].color, Color(9, 9, 9));
        },
        _ => panic!("still a lobby"),
    }
    let (reply, anim) = handle_incoming(Message::State(NetGameState::Error("gone".to_string())), &mut state, 2);
    assert!(reply.is_none() && anim.is_none());
    assert_eq!(state.class_name(), "error");
    let (reply, anim) = handle_incoming(Message::Anim(AnimSync::Rotate(RotateDir::CW)), &mut state, 2);
    assert!(reply.is_none());
    assert_eq!(anim, Some(AnimSync::Rotate(RotateDir::CW)));
    assert_eq!(state.class_name(), "error");
}

#[test]
fn the_server_routes_messages_within_a_game() {
    let mut server: GameServer<&'static str> = GameServer::new();
    let a = server.connect("a");
    let mut b = server.connect("b");
    while b == a {
        b = server.connect("b");
    }
    let mut c = server.connect("c");
    while c == a || c == b {
        c = server.connect("c");
    }
    assert_eq!(server.sessions.len(), 3);
    assert_eq!(server.sessions[&a], "a");
    server.join(a, 10);
    server.join(b, 10);
    server.join(c, 20);
    let mut to_a = server.recipients(10, a);
    to_a.sort();
    assert_eq!(to_a, vec![b]);
    assert!(server.recipients(20, c).is_empty());
    assert!(server.recipients(30, a).is_empty());
    // joining another game leaves the first
    server.join(b, 20);
    assert!(server.recipients(10, a).is_empty());
    assert_eq!(server.recipients(20, c), vec![b]);
    server.leave(c);
    assert_eq!(server.recipients(20, b), Vec::<usize>::new());
    server.join(c, 20);
    server.disconnect(b);
    assert!(!server.sessions.contains_key(&b));
    assert!(server.recipients(20, c).is_empty());
    assert!(server.games[&20].contains(&c));
    assert!(!server.games[&20].contains(&b));
}

#[test]
fn members_without_a_session_get_nothing() {
    let mut server: GameServer<u8> = GameServer::new();
    let a = server.connect(1);
    server.join(a, 1);
    server.join(a.wrapping_add(1), 1);
    assert!(server.recipients(1, a).is_empty());
    // disconnecting an unknown client leaves the games alone
    server.disconnect(a.wrapping_add(1));
    assert!(server.games[&1].contains(&a.wrapping_add(1)));
}

#[test]
fn sessions_forward_control_messages() {
    let mut s = GameSession::new();
    assert_eq!((s.id, s.game), (0, None));
    s.id = 9;
    match s.handle(SessionEvent::Meta(MetaMessage::Message(vec![1, 2]))) {
        SessionAction::Nothing => {},
        other => panic!("unexpected {:?}", other),
    }
    match s.handle(SessionEvent::Meta(MetaMessage::Join(4))) {
        SessionAction::Request(ServerRequest::Join { id, game_id }) => assert_eq!((id, game_id), (9, 4)),
        other => panic!("unexpected {:?}", other),
    }
    assert_eq!(s.game, Some(4));
    match s.handle(SessionEvent::Meta(MetaMessage::Message(vec![1, 2]))) {
        SessionAction::Request(ServerRequest::ClientMessage { id, msg, game_id }) => {
            assert_eq!((id, msg, game_id), (9, vec![1, 2], 4))
        },
        other => panic!("unexpected {:?}", other),
    }
    match s.handle(SessionEvent::Meta(MetaMessage::Leave)) {
        SessionAction::Request(ServerRequest::Leave { id }) => assert_eq!(id, 9),
        other => panic!("unexpected {:?}", other),
    }
    assert_eq!(s.game, None);
}

#[test]
fn sessions_answer_pings_and_stop_on_close() {
    let mut s = GameSession::new();
    match s.handle(SessionEvent::Ping(vec![7])) {
        SessionAction::Pong(p) => assert_eq!(p, vec![7]),
        other => panic!("unexpected {:?}", other),
    }
    assert!(matches!(s.handle(SessionEvent::Pong), SessionAction::Heartbeat));
    assert!(matches!(s.handle(SessionEvent::Text), SessionAction::Nothing));
    assert!(matches!(s.handle(SessionEvent::Nop), SessionAction::Nothing));
    assert!(matches!(s.handle(SessionEvent::BadFrame), SessionAction::ReportBadFrame));
    assert!(matches!(s.handle(SessionEvent::Close), SessionAction::Stop));
    assert!(matches!(s.handle(SessionEvent::Continuation), SessionAction::Stop));
    assert!(matches!(s.handle(SessionEvent::Error), SessionAction::Stop));
}

#[test]
fn heartbeats_expire_after_the_timeout() {
    assert!(!heartbeat_expired(10_000, 10_000));
    assert!(heartbeat_expired(10_001, 10_000));
    assert!(!heartbeat_expired(0, 10_000));
}

#[test]
fn only_the_host_starts_the_game() {
    let settings = BoardSettings { width: 7, height: 5, score_limit: 4 };
    let mut lobby = LobbyInfo::new(3, "Host".to_string());
    lobby.players.push(player(8));
    lobby.players.push(player(1));
    let mut state = NetGameState::Lobby(lobby);
    assert!(!start_hosted_game(&mut state, 8, settings, false));
    assert_eq!(state.class_name(), "lobby");
    assert!(start_hosted_game(&mut state, 3, settings, false));
    match &state {
        NetGameState::Active(c) => {
            let ids: Vec<u64> = c.players.iter().map(|p| p.id).collect();
            assert_eq!(ids, vec![1, 3, 8]);
            assert_eq!(c.host_id, 3);
            assert_eq!(c.settings, settings);
            assert_eq!(c.board.width(), 7);
            assert_eq!(c.board.height(), 5);
            assert_eq!(c.turn_state, TurnState::InsertTile);
            let mut order = c.turn_order.clone();
            order.sort();
            assert_eq!(order, vec![1, 3, 8]);
        },
        _ => panic!("the game should have started"),
    }
    // a running game is not started again
    assert!(!start_hosted_game(&mut state, 3, settings, false));
}

#[test]
fn local_players_are_named_after_their_parent() {
    let mut state = NetGameState::Lobby(LobbyInfo::new(3, "Ann".to_string()));
    let (child, hosting) = add_local_player(&mut state, 3, 11, Color(4, 5, 6)).unwrap();
    assert!(hosting);
    assert_eq!(child.name, "Ann - Copy");
    assert_eq!(child.id, 11);
    assert_eq!(child.parent, Some(3));
    assert_eq!(child.color, Color(4, 5, 6));
    match &state {
        NetGameState::Lobby(info) => assert_eq!(info.players.len(), 2),
        _ => panic!("still a lobby"),
    }
    let (child, hosting) = add_local_player(&mut state, 11, 12, Color(0, 0, 0)).unwrap();
    assert!(!hosting);
    assert_eq!(child.name, "Ann - Copy - Copy");
    assert!(add_local_player(&mut state, 99, 13, Color(0, 0, 0)).is_none());
    let mut error = NetGameState::Error("x".to_string());
    assert!(add_local_player(&mut error, 3, 13, Color(0, 0, 0)).is_none());
}

#[test]
fn joining_tells_the_old_and_the_new_game() {
    let mut server: GameServer<&'static str> = GameServer::new();
    let mut ids: Vec<usize> = Vec::new();
    while ids.len() < 4 {
        let id = server.connect("x");
        if !ids.contains(&id) {
            ids.push(id);
        }
    }
    let (a, b, c, d) = (ids[0], ids[1], ids[2], ids[3]);
    let first = server.join(a, 10);
    assert!(first.told_left.is_empty());
    assert!(first.told_joined.is_empty());
    let n = server.join(b, 10);
    assert!(n.told_left.is_empty());
    assert_eq!(n.told_joined, vec![a]);
    server.join(c, 10);
    server.join(d, 20);
    // b moves from game 10 to game 20
    let n = server.join(b, 20);
    let mut left = n.told_left.clone();
    left.sort();
    let mut expected = vec![a, c];
    expected.sort();
    assert_eq!(left, expected);
    assert_eq!(n.told_joined, vec![d]);
    // members without a session are not told
    server.disconnect(d);
    let n = server.join(a, 20);
    assert_eq!(n.told_left, vec![c]);
    assert_eq!(n.told_joined, vec![b]);
}

#[test]
fn pages_served_locally_talk_to_the_local_server() {
    assert_eq!(server_address(&"localhost".to_string()), "ws://127.0.0.1:8080");
    assert_eq!(server_address(&"127.0.0.1".to_string()), "ws://127.0.0.1:8080");
    assert_eq!(server_address(&"dynamaze.fun".to_string()), "ws://api.dynamaze.fun");
    assert_eq!(server_address(&"".to_string()), "ws://api.dynamaze.fun");
}
