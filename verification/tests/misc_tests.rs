use dynamaze::anim::InsertOffset;
use dynamaze::controller::{BoardKey, TurnState};
use dynamaze::demo::{is_demo, new_board, new_demo_controller};
use dynamaze::gamepad::{axis, map_button, map_event, Axis, KeyState, PadAxis, PadButton, PadEvent};
use dynamaze::player::{Color, Player};
use dynamaze::tile::{Direction, Tile};

#[test]
fn gamepad_buttons_stand_for_keys() {
    assert_eq!(map_button(PadButton::LeftTrigger), Some(BoardKey::LShift));
    assert_eq!(map_button(PadButton::LeftTrigger2), Some(BoardKey::LShift));
    assert_eq!(map_button(PadButton::RightTrigger2), Some(BoardKey::RShift));
    assert_eq!(map_button(PadButton::South), Some(BoardKey::Space));
    assert_eq!(map_button(PadButton::Z), Some(BoardKey::Space));
    assert_eq!(map_button(PadButton::DPadUp), Some(BoardKey::Up));
    assert_eq!(map_button(PadButton::DPadDown), Some(BoardKey::Down));
    assert_eq!(map_button(PadButton::DPadLeft), Some(BoardKey::Left));
    assert_eq!(map_button(PadButton::DPadRight), Some(BoardKey::Right));
    assert_eq!(map_button(PadButton::Start), None);
    assert_eq!(map_button(PadButton::Unknown), None);
}

#[test]
fn gamepad_events_press_and_release_keys() {
    assert_eq!(map_event(PadEvent::ButtonPressed(PadButton::East)), Some((KeyState::Press, BoardKey::Space)));
    assert_eq!(map_event(PadEvent::ButtonRepeated(PadButton::DPadLeft)), Some((KeyState::Press, BoardKey::Left)));
    assert_eq!(map_event(PadEvent::ButtonReleased(PadButton::DPadLeft)), Some((KeyState::Release, BoardKey::Left)));
    assert_eq!(map_event(PadEvent::ButtonPressed(PadButton::Mode)), None);
    assert_eq!(map_event(PadEvent::Other), None);
}

#[test]
fn gamepad_axes_are_horizontal_or_vertical() {
    assert_eq!(axis(PadAxis::LeftStickX), Some(Axis::X));
    assert_eq!(axis(PadAxis::DPadX), Some(Axis::X));
    assert_eq!(axis(PadAxis::RightStickY), Some(Axis::Y));
    assert_eq!(axis(PadAxis::LeftZ), None);
    assert_eq!(axis(PadAxis::Unknown), None);
}

#[test]
fn insert_animation_offsets_the_pushed_line() {
    let mut a = InsertOffset::new();
    assert_eq!(a.offset_dir, Direction::North);
    assert_eq!(a.coordinate, 0);
    a.reset(Direction::South, 3);
    assert!(a.applies_to_pos(true, (0, 3)));
    assert!(a.applies_to_pos(true, (6, 3)));
    assert!(!a.applies_to_pos(true, (3, 0)));
    assert!(!a.applies_to_pos(false, (0, 3)));
    assert!(a.applies_to_loose(true, (Direction::South, 1)));
    assert!(a.applies_to_loose(true, (Direction::North, 1)));
    assert!(!a.applies_to_loose(true, (Direction::East, 1)));
    assert!(!a.applies_to_loose(true, (Direction::South, 0)));
    assert!(!a.applies_to_loose(false, (Direction::South, 1)));
    a.reset(Direction::West, 1);
    assert!(a.applies_to_pos(true, (1, 5)));
    assert!(!a.applies_to_pos(true, (5, 1)));
}

#[test]
fn the_demo_flag_turns_on_demonstration_mode() {
    let args = |xs: &[&str]| xs.iter().map(|x| x.to_string()).collect::<Vec<String>>();
    assert!(!is_demo(&args(&[])));
    assert!(!is_demo(&args(&["dynamaze"])));
    assert!(is_demo(&args(&["dynamaze", "--demo"])));
    assert!(is_demo(&args(&["--demo", "--server"])));
    assert!(!is_demo(&args(&["dynamaze", "--demo2", "-demo", "demo"])));
}

#[test]
fn the_demo_board_is_fixed() {
    let players: Vec<Player> = (1..=4).map(|id| Player::new(format!("P{}", id), Color(0, 0, 0), id)).collect();
    let b = new_board(&players);
    assert_eq!(b.height(), 7);
    assert_eq!(b.width(), 7);
    assert_eq!(b.cells[0][0], Tile::from_char('┌').unwrap());
    assert_eq!(b.cells[6][6], Tile::from_char('┘').unwrap());
    assert_eq!(b.cells[2][3].whose_target, Some(1));
    assert_eq!(b.cells[1][0].whose_target, Some(2));
    assert_eq!(b.cells[3][4].whose_target, Some(3));
    assert_eq!(b.cells[0][2].whose_target, Some(4));
    assert_eq!(b.loose_tile, Tile::from_char('┤').unwrap());
    assert_eq!(b.loose_tile_position, (Direction::North, 1));
    let positions: Vec<(usize, usize)> = b.player_tokens.iter().map(|t| t.position).collect();
    assert_eq!(positions, vec![(0, 0), (6, 6), (0, 6), (6, 0)]);
    let two = new_board(&players[..2].to_vec());
    assert_eq!(two.player_tokens.len(), 2);
    assert_eq!(two.cells[3][4].whose_target, None);
}

#[test]
fn the_demo_game_has_four_local_players() {
    let c = new_demo_controller();
    assert_eq!(c.players.len(), 4);
    assert_eq!(c.players[0].name, "Player 1");
    assert_eq!(c.players[3].name, "Player 4");
    assert_eq!(c.players[0].parent, None);
    assert_eq!(c.players[2].parent, Some(1));
    assert_eq!(c.players[1].color, Color(102, 51, 153));
    assert_eq!(c.turn_order, vec![1, 2, 3, 4]);
    assert_eq!(c.turn_state, TurnState::InsertTile);
    assert_eq!(c.settings.score_limit, 3);
    for id in 1..=4 {
        assert!(c.local_turn(1) || id != 1);
    }
    assert_eq!(c.effective_local_id(1), 1);
    assert_eq!(c.highlighted_tile, (0, 0));
}
