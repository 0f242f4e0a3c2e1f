use dynamaze::anim::{AnimSync, RotateDir};
use dynamaze::board::{Board, PlayerToken};
use dynamaze::controller::{insert_key_target, BoardController, BoardInput, BoardKey, BoardSettings, TurnState};
use dynamaze::player::{Color, Player};
use dynamaze::tile::{Direction, Tile};
use dynamaze::tutorial::{new_tutorial_controller, TutorialStep};

fn tile(c: char) -> Tile {
    Tile::from_char(c).unwrap()
}

fn player(id: u64) -> Player {
    Player::new(format!("P{}", id), Color(1, 2, 3), id)
}

const OPEN7: &str = "
    ┌─┬─┬─┐
    ├─┤│├─┤
    │││││││
    ├─┤│├─┤
    │││││││
    ├─┤│├─┤
    └─┴─┴─┘
";

/// A game on the given board, players in order of ID with tokens at the given positions.
fn game(spec: &str, players: Vec<Player>, positions: Vec<(usize, usize)>, turn_order: Vec<u64>) -> BoardController {
    let tokens = players
        .iter()
        .zip(positions.iter())
        .map(|(p, pos)| PlayerToken { player_id: p.id, position: *pos, score: 0 })
        .collect();
    BoardController {
        board: Board {
            cells: Board::parse_board(spec),
            loose_tile: tile('│'),
            loose_tile_position: (Direction::North, 0),
            player_tokens: tokens,
            tutorial_step: None,
        },
        highlighted_tile: (0, 0),
        players,
        host_id: 1,
        turn_order,
        turn_state: TurnState::InsertTile,
        settings: BoardSettings { width: 7, height: 7, score_limit: 2 },
    }
}

fn ring_game() -> BoardController {
    game("┌─┐\n│││\n└─┘", vec![player(1), player(2)], vec![(0, 0), (2, 2)], vec![1, 2])
}

#[test]
fn insert_keys_move_along_and_around_the_edges() {
    let cases = [
        (Direction::West, (Direction::East, 0), (Direction::North, 2)),
        (Direction::West, (Direction::East, 2), (Direction::South, 2)),
        (Direction::West, (Direction::West, 1), (Direction::West, 1)),
        (Direction::West, (Direction::North, 0), (Direction::West, 0)),
        (Direction::West, (Direction::South, 0), (Direction::West, 2)),
        (Direction::West, (Direction::North, 2), (Direction::North, 1)),
        (Direction::East, (Direction::West, 0), (Direction::North, 0)),
        (Direction::East, (Direction::West, 2), (Direction::South, 0)),
        (Direction::East, (Direction::East, 1), (Direction::East, 1)),
        (Direction::East, (Direction::North, 2), (Direction::East, 0)),
        (Direction::East, (Direction::South, 2), (Direction::East, 2)),
        (Direction::East, (Direction::North, 0), (Direction::North, 1)),
        (Direction::South, (Direction::North, 0), (Direction::West, 0)),
        (Direction::South, (Direction::North, 2), (Direction::East, 0)),
        (Direction::South, (Direction::West, 2), (Direction::South, 0)),
        (Direction::South, (Direction::East, 2), (Direction::South, 2)),
        (Direction::South, (Direction::West, 0), (Direction::West, 1)),
        (Direction::North, (Direction::South, 0), (Direction::West, 2)),
        (Direction::North, (Direction::South, 1), (Direction::East, 2)),
        (Direction::North, (Direction::West, 0), (Direction::North, 0)),
        (Direction::North, (Direction::East, 0), (Direction::North, 2)),
        (Direction::North, (Direction::East, 2), (Direction::East, 1)),
        (Direction::North, (Direction::North, 1), (Direction::North, 1)),
    ];
    for (key, from, to) in cases.iter() {
        assert_eq!(insert_key_target(*key, *from, 3, 3), Some(*to), "{:?} from {:?}", key, from);
        let mut c = game(OPEN7, vec![player(1)], vec![(0, 0)], vec![1]);
        c.board.loose_tile_position = *from;
        let moved = c.handle_insert_key_direction(*key);
        assert_eq!(c.board.loose_tile_position, *to);
        assert_eq!(moved, from != to);
    }
}

#[test]
fn insert_keys_stay_on_existing_guides() {
    let dirs = [Direction::North, Direction::East, Direction::South, Direction::West];
    for gx in 1..5usize {
        for gy in 1..5usize {
            for edge in dirs.iter() {
                let count = match edge {
                    Direction::North | Direction::South => gx,
                    _ => gy,
                };
                for n in 0..count {
                    for key in dirs.iter() {
                        let (e, m) = insert_key_target(*key, (*edge, n), gx, gy).unwrap();
                        match e {
                            Direction::North | Direction::South => assert!(m < gx),
                            _ => assert!(m < gy),
                        }
                    }
                }
            }
        }
    }
}

#[test]
fn insert_keys_without_guides_on_an_edge_have_no_target() {
    assert_eq!(insert_key_target(Direction::West, (Direction::East, 0), 0, 3), None);
    assert_eq!(insert_key_target(Direction::West, (Direction::South, 0), 3, 0), None);
    assert_eq!(insert_key_target(Direction::East, (Direction::North, 5), 0, 3), None);
    assert_eq!(insert_key_target(Direction::East, (Direction::North, usize::MAX), 3, 3), None);
    assert_eq!(insert_key_target(Direction::West, (Direction::North, 0), 0, 0), Some((Direction::West, 0)));
}

#[test]
fn move_keys_stop_at_the_edges() {
    let mut c = game(OPEN7, vec![player(1)], vec![(0, 0)], vec![1]);
    c.highlighted_tile = (0, 0);
    assert!(!c.handle_move_key_direction(Direction::North));
    assert!(!c.handle_move_key_direction(Direction::West));
    assert!(c.handle_move_key_direction(Direction::South));
    assert_eq!(c.highlighted_tile, (1, 0));
    c.highlighted_tile = (6, 6);
    assert!(!c.handle_move_key_direction(Direction::South));
    assert!(!c.handle_move_key_direction(Direction::East));
    assert!(c.handle_move_key_direction(Direction::West));
    assert_eq!(c.highlighted_tile, (6, 5));
}

#[test]
fn turn_order_and_local_players() {
    let players = vec![player(1), Player::new_child("C".to_string(), Color(0, 0, 0), 2, 1), player(3)];
    let c = game(OPEN7, players, vec![(0, 0), (6, 6), (0, 6)], vec![3, 2, 1]);
    assert_eq!(c.active_player_id(), 3);
    assert_eq!(c.active_player().id, 3);
    assert!(c.local_turn(3));
    assert!(!c.local_turn(1));
    assert!(!c.local_turn(2));
    // player 2 lives with 1 and moves before 1
    assert_eq!(c.effective_local_id(1), 2);
    assert_eq!(c.effective_local_id(3), 3);
    assert_eq!(c.effective_local_id(9), 9);
    assert_eq!(c.player_index(2), Some(1));
    assert_eq!(c.player_index(7), None);
}

#[test]
fn the_active_player_is_their_own_effective_id() {
    let players = vec![player(1), Player::new_child("C".to_string(), Color(0, 0, 0), 2, 1)];
    let c = game(OPEN7, players, vec![(0, 0), (6, 6)], vec![2, 1]);
    assert!(c.local_turn(1));
    assert_eq!(c.effective_local_id(1), c.active_player_id());
}

#[test]
fn passing_the_turn_goes_round_the_table() {
    let mut c = game(OPEN7, vec![player(1), player(2), player(3)], vec![(0, 0), (6, 6), (0, 6)], vec![2, 3, 1]);
    c.rotate_turn_order();
    assert_eq!(c.turn_order, vec![3, 1, 2]);
    assert_eq!(c.highlighted_tile, (0, 6));
    c.rotate_turn_order();
    assert_eq!(c.active_player_id(), 1);
    assert_eq!(c.highlighted_tile, (0, 0));
    c.rotate_turn_order();
    assert_eq!(c.turn_order, vec![2, 3, 1]);
}

#[test]
fn winner_is_the_first_to_reach_the_score_limit() {
    let mut c = game(OPEN7, vec![player(1), player(2), player(3)], vec![(0, 0), (6, 6), (0, 6)], vec![1, 2, 3]);
    assert!(c.winner().is_none());
    c.board.player_tokens[2].score = 2;
    assert_eq!(c.winner().unwrap().id, 3);
    c.board.player_tokens[1].score = 5;
    assert_eq!(c.winner().unwrap().id, 2);
}

#[test]
fn moves_go_only_where_the_maze_leads() {
    let mut c = ring_game();
    c.turn_state = TurnState::MoveToken;
    // (1,1) is walled off from the ring
    assert!(!c.attempt_move((1, 1)));
    assert_eq!(c.board.player_pos(1), (0, 0));
    assert_eq!(c.turn_order, vec![1, 2]);
    assert_eq!(c.turn_state, TurnState::MoveToken);
    assert!(c.attempt_move((2, 0)));
    assert_eq!(c.board.player_pos(1), (2, 0));
    assert_eq!(c.turn_order, vec![2, 1]);
    assert_eq!(c.turn_state, TurnState::InsertTile);
    assert_eq!(c.highlighted_tile, (2, 2));
}

#[test]
fn moving_onto_ones_target_scores() {
    let mut c = ring_game();
    c.turn_state = TurnState::MoveToken;
    c.board.cells[1][2].whose_target = Some(1);
    c.board.cells[0][2].whose_target = Some(2);
    assert!(c.attempt_move((1, 2)));
    assert_eq!(c.board.player_tokens[0].score, 1);
    assert_eq!(c.board.cells[1][2].whose_target, None);
    let mine = c.board.cells.iter().flatten().filter(|t| t.whose_target == Some(1)).count();
    assert_eq!(mine, 1);
    assert_eq!(c.board.cells[0][2].whose_target, Some(2));
}

#[test]
fn moving_onto_someone_elses_target_does_not_score() {
    let mut c = ring_game();
    c.turn_state = TurnState::MoveToken;
    c.board.cells[1][2].whose_target = Some(2);
    assert!(c.attempt_move((1, 2)));
    assert_eq!(c.board.player_tokens[0].score, 0);
    assert_eq!(c.board.cells[1][2].whose_target, Some(2));
}

#[test]
fn events_are_ignored_when_it_is_not_your_turn() {
    let mut c = ring_game();
    let r = c.event(BoardInput::KeyPressed(BoardKey::RShift), 2);
    assert_eq!(r, (false, None));
    assert_eq!(c.board.loose_tile, tile('│'));
    let r = c.event(BoardInput::KeyPressed(BoardKey::Space), 2);
    assert_eq!(r, (false, None));
    assert_eq!(c.turn_state, TurnState::InsertTile);
}

#[test]
fn shift_keys_turn_the_loose_tile() {
    let mut c = ring_game();
    assert_eq!(c.event(BoardInput::KeyPressed(BoardKey::RShift), 1), (true, Some(AnimSync::Rotate(RotateDir::CW))));
    assert_eq!(c.board.loose_tile, tile('─'));
    assert_eq!(c.event(BoardInput::KeyPressed(BoardKey::LShift), 1), (true, Some(AnimSync::Rotate(RotateDir::CCW))));
    assert_eq!(c.board.loose_tile, tile('│'));
    assert_eq!(c.event(BoardInput::KeyPressed(BoardKey::Other), 1), (false, None));
}

#[test]
fn cursor_and_arrows_pick_the_insert_guide() {
    let mut c = ring_game();
    let r = c.event(BoardInput::CursorMoved { guide: Some((Direction::West, 0)), tile: Some((1, 1)) }, 1);
    assert_eq!(r, (true, None));
    assert_eq!(c.board.loose_tile_position, (Direction::West, 0));
    assert_eq!(c.highlighted_tile, (0, 0));
    let r = c.event(BoardInput::CursorMoved { guide: Some((Direction::West, 0)), tile: None }, 1);
    assert_eq!(r, (false, None));
    let r = c.event(BoardInput::KeyPressed(BoardKey::Up), 1);
    assert_eq!(r, (true, None));
    assert_eq!(c.board.loose_tile_position, (Direction::North, 0));
}

#[test]
fn space_inserts_then_the_player_moves() {
    let mut c = ring_game();
    let r = c.event(BoardInput::KeyPressed(BoardKey::Space), 1);
    assert_eq!(r, (true, Some(AnimSync::Insert(Direction::South, 1))));
    assert_eq!(c.turn_state, TurnState::MoveToken);
    assert_eq!(c.board.loose_tile, tile('─'));
    assert_eq!(c.board.cells[0][1], tile('│'));
    assert_eq!(c.board.loose_tile_position, (Direction::South, 0));
    // inserting is over: space now tries to move to the highlighted tile
    let r = c.event(BoardInput::CursorMoved { guide: Some((Direction::East, 0)), tile: Some((1, 0)) }, 1);
    assert_eq!(r, (true, None));
    assert_eq!(c.highlighted_tile, (1, 0));
    assert_eq!(c.board.loose_tile_position, (Direction::South, 0));
    let r = c.event(BoardInput::KeyPressed(BoardKey::Space), 1);
    assert_eq!(r, (true, None));
    assert_eq!(c.board.player_pos(1), (1, 0));
    assert_eq!(c.active_player_id(), 2);
    assert_eq!(c.turn_state, TurnState::InsertTile);
}

#[test]
fn clicks_on_the_loose_tile_insert_or_turn_it() {
    let mut c = ring_game();
    let r = c.event(BoardInput::MousePressed { left: false, on_loose_tile: true, tile: None }, 1);
    assert_eq!(r, (true, Some(AnimSync::Rotate(RotateDir::CW))));
    assert_eq!(c.board.loose_tile, tile('─'));
    let r = c.event(BoardInput::MousePressed { left: true, on_loose_tile: true, tile: None }, 1);
    assert_eq!(r, (true, Some(AnimSync::Insert(Direction::South, 1))));
    assert_eq!(c.turn_state, TurnState::MoveToken);
    // a click on an unreachable tile does nothing, on a reachable one moves there
    let r = c.event(BoardInput::MousePressed { left: true, on_loose_tile: false, tile: Some((1, 1)) }, 1);
    assert_eq!(r.0, c.board.player_pos(1) != (0, 0));
}

#[test]
fn can_handle_spots_inputs_that_would_fail() {
    let mut c = ring_game();
    assert!(c.can_handle(BoardInput::KeyPressed(BoardKey::Space), 1));
    assert!(c.can_insert());
    c.board.loose_tile_position = (Direction::North, 1);
    assert!(!c.can_insert());
    assert!(!c.can_handle(BoardInput::KeyPressed(BoardKey::Space), 1));
    assert!(!c.can_handle(BoardInput::MousePressed { left: true, on_loose_tile: true, tile: None }, 1));
    assert!(c.can_handle(BoardInput::MousePressed { left: false, on_loose_tile: true, tile: None }, 1));
    // not their turn: nothing can fail
    assert!(c.can_handle(BoardInput::KeyPressed(BoardKey::Space), 2));
    c.turn_state = TurnState::MoveToken;
    assert!(c.can_move_to((2, 2)));
    c.board.player_tokens[0].position = (5, 5);
    assert!(!c.can_move_to((2, 2)));
}

#[test]
fn a_move_onto_the_last_free_target_is_refused_up_front() {
    let mut c = game("┌┐", vec![player(1)], vec![(0, 0)], vec![1]);
    c.turn_state = TurnState::MoveToken;
    c.board.cells[0][1].whose_target = Some(1);
    // after reaching (0,1) no other free cell remains for the next target
    c.board.cells[0][0].whose_target = Some(9);
    assert!(!c.can_move_to((0, 1)));
    c.board.cells[0][0].whose_target = None;
    assert!(c.can_move_to((0, 1)));
}

#[test]
fn new_games_key_players_by_id_and_shuffle_the_turn_order() {
    let settings = BoardSettings { width: 7, height: 7, score_limit: 3 };
    let list = vec![player(5), player(2), Player::new("Again".to_string(), Color(9, 9, 9), 5)];
    for _ in 0..10 {
        let c = BoardController::new(settings, list.clone(), 2, false);
        assert_eq!(c.players.len(), 2);
        assert_eq!(c.players[0].id, 2);
        assert_eq!(c.players[1].id, 5);
        assert_eq!(c.players[1].name, "Again");
        let mut order = c.turn_order.clone();
        order.sort();
        assert_eq!(order, vec![2, 5, 5]);
        assert_eq!(c.host_id, 2);
        assert_eq!(c.turn_state, TurnState::InsertTile);
        assert_eq!(c.settings, settings);
        assert_eq!(c.highlighted_tile, c.board.player_pos(c.turn_order[0]));
        assert_eq!(c.board.width(), 7);
        assert_eq!(c.board.player_tokens.len(), 2);
    }
    let mut first_seen = std::collections::HashSet::new();
    for _ in 0..60 {
        let c = BoardController::new(settings, vec![player(1), player(2), player(3)], 1, false);
        first_seen.insert(c.turn_order[0]);
    }
    assert!(first_seen.len() > 1);
}

#[test]
fn cloned_games_are_equal() {
    let c = ring_game();
    let d = c.clone();
    assert_eq!(d.board.cells, c.board.cells);
    assert_eq!(d.turn_order, c.turn_order);
    assert_eq!(d.players.len(), c.players.len());
    assert_eq!(d.board.player_pos(2), (2, 2));
}

#[test]
fn the_tutorial_moves_on_once_its_goal_is_reached() {
    let mut c = new_tutorial_controller(42);
    assert_eq!(c.board.tutorial_step, Some(TutorialStep::First));
    assert_eq!(c.board.height(), 1);
    assert_eq!(c.board.width(), 7);
    assert_eq!(c.board.cells[0][6].whose_target, Some(42));
    assert_eq!(c.board.player_pos(42), (0, 0));
    assert_eq!(c.players[0].name, "Player 1");
    assert_eq!(c.players[0].color, Color(51, 102, 153));
    assert_eq!(c.settings.score_limit, 1);
    // turn the vertical loose tile and push it into the gap
    assert!(c.can_handle(BoardInput::KeyPressed(BoardKey::RShift), 42));
    c.event(BoardInput::KeyPressed(BoardKey::RShift), 42);
    assert!(c.can_handle(BoardInput::KeyPressed(BoardKey::Space), 42));
    c.event(BoardInput::KeyPressed(BoardKey::Space), 42);
    assert_eq!(c.board.cells[0][3], tile('─'));
    assert!(c.can_handle(BoardInput::MousePressed { left: true, on_loose_tile: false, tile: Some((0, 6)) }, 42));
    let r = c.event(BoardInput::MousePressed { left: true, on_loose_tile: false, tile: Some((0, 6)) }, 42);
    assert_eq!(r, (true, None));
    // the second step is set up
    assert_eq!(c.board.tutorial_step, Some(TutorialStep::Second));
    assert_eq!(c.board.height(), 7);
    assert!(c.board.cells.iter().flatten().all(|t| *t == tile('┘')));
    assert_eq!(c.board.loose_tile.whose_target, Some(42));
    assert_eq!(c.board.loose_tile_position, (Direction::East, 2));
    assert_eq!(c.board.player_tokens[0].position, (6, 6));
    assert_eq!(c.board.player_tokens[0].score, 0);
}

#[test]
fn the_third_tutorial_step_targets_a_cell() {
    let mut b = new_tutorial_controller(3).board;
    TutorialStep::Third.apply(&mut b);
    assert_eq!(b.cells[2][2].whose_target, Some(3));
    assert_eq!(b.cells[0][0], tile('┌'));
    assert_eq!(b.cells[1][2].shape, tile('┐').shape);
    assert_eq!(b.loose_tile, tile('─'));
    assert_eq!(b.loose_tile_position, (Direction::North, 2));
    assert_eq!(b.player_tokens[0].position, (6, 5));
    assert_eq!(b.tutorial_step, Some(TutorialStep::Third));
}

#[test]
fn well_formedness_is_checked_before_use() {
    assert!(ring_game().is_wf());

    let mut ragged = ring_game();
    ragged.board.cells[1].pop();
    assert!(!ragged.is_wf());

    let mut empty = ring_game();
    empty.board.cells.clear();
    assert!(!empty.is_wf());

    let unsorted = game("┌─┐\n│││\n└─┘", vec![player(2), player(1)], vec![(0, 0), (2, 2)], vec![1, 2]);
    assert!(!unsorted.is_wf());

    let stranger_moves = game("┌─┐\n│││\n└─┘", vec![player(1), player(2)], vec![(0, 0), (2, 2)], vec![1, 3]);
    assert!(!stranger_moves.is_wf());

    let nobody_moves = game("┌─┐\n│││\n└─┘", vec![player(1), player(2)], vec![(0, 0), (2, 2)], vec![]);
    assert!(!nobody_moves.is_wf());

    let mut lost_token = ring_game();
    lost_token.board.player_tokens.pop();
    assert!(!lost_token.is_wf());
}
