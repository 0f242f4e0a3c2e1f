use dynamaze::item::Item;
use dynamaze::player::{Color, Player};
use dynamaze::tile::{step, Direction, Shape, Tile};
use dynamaze::tutorial::TutorialStep;

const DIRS: [Direction; 4] = [Direction::North, Direction::East, Direction::South, Direction::West];

fn tile(c: char) -> Tile {
    Tile::from_char(c).unwrap()
}

#[test]
fn compose_adds_quarter_turns() {
    assert_eq!(Direction::East.compose(Direction::East), Direction::South);
    assert_eq!(Direction::East.compose(Direction::West), Direction::North);
    assert_eq!(Direction::South.compose(Direction::West), Direction::East);
    assert_eq!(Direction::West.compose(Direction::West), Direction::South);
    assert_eq!(Direction::North.compose(Direction::South), Direction::South);
}

#[test]
fn compose_is_a_commutative_group_with_north_as_identity() {
    for a in DIRS.iter() {
        assert_eq!(a.compose(Direction::North), *a);
        let inverse = DIRS.iter().find(|b| a.compose(**b) == Direction::North);
        assert!(inverse.is_some());
        for b in DIRS.iter() {
            assert_eq!(a.compose(*b), b.compose(*a));
            for c in DIRS.iter() {
                assert_eq!(a.compose(*b).compose(*c), a.compose(b.compose(*c)));
            }
        }
    }
}

#[test]
fn all_lists_the_four_directions() {
    assert_eq!(
        Direction::all(),
        vec![Direction::North, Direction::South, Direction::East, Direction::West]
    );
}

#[test]
fn from_sample_covers_all_directions() {
    let mut seen: Vec<Direction> = (0..4).map(Direction::from_sample).collect();
    seen.dedup();
    assert_eq!(seen.len(), 4);
    for d in DIRS.iter() {
        assert!(seen.contains(d));
    }
}

#[test]
fn step_moves_one_cell() {
    assert_eq!(step((3, 4), Direction::North), (2, 4));
    assert_eq!(step((3, 4), Direction::South), (4, 4));
    assert_eq!(step((3, 4), Direction::East), (3, 5));
    assert_eq!(step((3, 4), Direction::West), (3, 3));
}

#[test]
fn stepping_back_returns() {
    for d in DIRS.iter() {
        let back = d.compose(Direction::South);
        assert_eq!(step(step((5, 5), *d), back), (5, 5));
    }
}

#[test]
fn box_characters_read_as_tiles() {
    assert_eq!(tile('│'), Tile { shape: Shape::I, orientation: Direction::North, whose_target: None });
    assert_eq!(tile('─'), Tile { shape: Shape::I, orientation: Direction::East, whose_target: None });
    assert_eq!(tile('└'), Tile { shape: Shape::L, orientation: Direction::North, whose_target: None });
    assert_eq!(tile('┌'), Tile { shape: Shape::L, orientation: Direction::East, whose_target: None });
    assert_eq!(tile('┐'), Tile { shape: Shape::L, orientation: Direction::South, whose_target: None });
    assert_eq!(tile('┘'), Tile { shape: Shape::L, orientation: Direction::West, whose_target: None });
    assert_eq!(tile('├'), Tile { shape: Shape::T, orientation: Direction::North, whose_target: None });
    assert_eq!(tile('┬'), Tile { shape: Shape::T, orientation: Direction::East, whose_target: None });
    assert_eq!(tile('┤'), Tile { shape: Shape::T, orientation: Direction::South, whose_target: None });
    assert_eq!(tile('┴'), Tile { shape: Shape::T, orientation: Direction::West, whose_target: None });
    assert_eq!(Tile::from_char('x'), None);
    assert_eq!(Tile::from_char(' '), None);
}

#[test]
fn paths_follow_the_drawing() {
    assert_eq!(tile('└').paths(), vec![Direction::North, Direction::East]);
    assert_eq!(tile('┐').paths(), vec![Direction::South, Direction::West]);
    assert_eq!(tile('│').paths(), vec![Direction::North, Direction::South]);
    assert_eq!(tile('┤').paths(), vec![Direction::South, Direction::West, Direction::North]);
    assert_eq!(tile('┤').walls(), vec![Direction::East]);
    assert_eq!(tile('─').walls(), vec![Direction::South, Direction::North]);
}

#[test]
fn paths_and_walls_split_the_four_directions() {
    for c in "│─└┌┐┘├┬┤┴".chars() {
        let t = tile(c);
        let paths = t.paths();
        let walls = t.walls();
        for d in DIRS.iter() {
            assert!(paths.contains(d) != walls.contains(d));
            assert_eq!(t.has_path(*d), paths.contains(d));
        }
    }
}

#[test]
fn rotating_turns_clockwise() {
    let mut t = tile('└');
    t.rotate();
    assert_eq!(t, tile('┌'));
    t.rotate();
    assert_eq!(t, tile('┐'));
    let mut u = tile('├');
    u.rotate_by(Direction::West);
    assert_eq!(u, tile('┴'));
}

#[test]
fn rotating_four_times_is_the_identity() {
    for c in "│─└┌┐┘├┬┤┴".chars() {
        let mut t = tile(c);
        t.whose_target = Some(7);
        let before = t;
        for _ in 0..4 {
            t.rotate();
        }
        assert_eq!(t, before);
    }
}

#[test]
fn rotated_tile_opens_the_rotated_way() {
    for c in "│─└┌┐┘├┬┤┴".chars() {
        let t = tile(c);
        let mut r = t;
        r.rotate();
        for d in DIRS.iter() {
            assert_eq!(r.has_path(d.compose(Direction::East)), t.has_path(*d));
        }
    }
}

#[test]
fn random_tiles_have_no_target() {
    for _ in 0..50 {
        let t = Tile::random();
        assert_eq!(t.whose_target, None);
        assert_eq!(t.paths().len() + t.walls().len(), 4);
    }
}

#[test]
fn random_directions_and_shapes_vary() {
    let dirs: Vec<Direction> = (0..200).map(|_| Direction::random()).collect();
    for d in DIRS.iter() {
        assert!(dirs.contains(d));
    }
    let shapes: Vec<Shape> = (0..200).map(|_| Shape::random()).collect();
    assert!(shapes.contains(&Shape::L) && shapes.contains(&Shape::I) && shapes.contains(&Shape::T));
}

#[test]
fn color_hex_is_lowercase_with_two_digits_per_channel() {
    assert_eq!(Color(51, 102, 153).hex(), "#336699");
    assert_eq!(Color(0, 10, 255).hex(), "#000aff");
    assert_eq!(Color(178, 51, 178).hex(), "#b233b2");
}

#[test]
fn color_hex_parses_back() {
    for c in [Color(0, 0, 0), Color(255, 255, 255), Color(18, 171, 205), Color(1, 2, 3)].iter() {
        assert_eq!(Color::parse_hex(&c.hex()), Some(*c));
    }
    assert_eq!(Color::parse_hex("#AbCdEf"), Some(Color(0xab, 0xcd, 0xef)));
}

#[test]
fn color_parse_rejects_malformed_text() {
    assert_eq!(Color::parse_hex(""), None);
    assert_eq!(Color::parse_hex("336699"), None);
    assert_eq!(Color::parse_hex("#33669"), None);
    assert_eq!(Color::parse_hex("#3366990"), None);
    assert_eq!(Color::parse_hex("#33g699"), None);
}

#[test]
fn players_live_with_themselves_and_their_parent() {
    let p = Player::new("A".to_string(), Color(1, 2, 3), 5);
    assert_eq!(p.parent, None);
    assert!(p.lives_with(5));
    assert!(!p.lives_with(6));
    let c = Player::new_child("B".to_string(), Color(1, 2, 3), 6, 5);
    assert_eq!(c.parent, Some(5));
    assert!(c.lives_with(5));
    assert!(c.lives_with(6));
    assert!(!c.lives_with(7));
    let copy = c.clone();
    assert_eq!(copy.name, "B");
    assert_eq!(copy.id, 6);
}

#[test]
fn tutorial_steps_follow_each_other_and_end() {
    assert_eq!(TutorialStep::First.next(), Some(TutorialStep::Second));
    assert_eq!(TutorialStep::Second.next(), Some(TutorialStep::Third));
    assert_eq!(TutorialStep::Third.next(), None);
    assert_eq!(TutorialStep::First.text(), "You're the circle, your target is the striped square.");
    assert_eq!(
        TutorialStep::Second.text(),
        "Targets can be pushed off the board; if you get to insert your own, put it nearby."
    );
    assert_eq!(
        TutorialStep::Third.text(),
        "If you push yourself off the board, you'll reappear on the other side."
    );
}

#[test]
fn items_show_their_letters() {
    assert_eq!(Item::A.char(), 'A');
    assert_eq!(Item::M.char(), 'M');
    assert_eq!(Item::Z.char(), 'Z');
    for i in 0..26 {
        assert_eq!(Item::from_index(i).char() as usize, 'A' as usize + i);
    }
    for _ in 0..20 {
        let c = Item::random().char();
        assert!(c.is_ascii_uppercase());
    }
}
