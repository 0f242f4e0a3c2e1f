use dynamaze::anim::AnimSync;
use dynamaze::board::{Board, PlayerToken};
use dynamaze::player::{Color, Player};
use dynamaze::tile::{Direction, Shape, Tile};

fn tile(c: char) -> Tile {
    Tile::from_char(c).unwrap()
}

fn player(id: u64) -> Player {
    Player::new(format!("P{}", id), Color(10, 20, 30), id)
}

fn token(id: u64, position: (usize, usize)) -> PlayerToken {
    PlayerToken { player_id: id, position, score: 0 }
}

fn board(spec: &str, loose: char, pos: (Direction, usize), tokens: Vec<PlayerToken>) -> Board {
    Board {
        cells: Board::parse_board(spec),
        loose_tile: tile(loose),
        loose_tile_position: pos,
        player_tokens: tokens,
        tutorial_step: None,
    }
}

fn row(b: &Board, r: usize) -> String {
    let mut s = String::new();
    for t in b.cells[r].iter() {
        s.push(draw(*t));
    }
    s
}

fn draw(t: Tile) -> char {
    for c in "│─└┌┐┘├┬┤┴".chars() {
        let u = tile(c);
        if u.shape == t.shape && u.orientation == t.orientation {
            return c;
        }
    }
    '?'
}

fn sorted(mut v: Vec<(usize, usize)>) -> Vec<(usize, usize)> {
    v.sort();
    v
}

/// All tiles on the board and the loose tile, as sortable keys.
fn inventory(b: &Board) -> Vec<(u8, u8, Option<u64>)> {
    fn key(t: &Tile) -> (u8, u8, Option<u64>) {
        let s = match t.shape {
            Shape::L => 0,
            Shape::I => 1,
            Shape::T => 2,
        };
        let o = match t.orientation {
            Direction::North => 0,
            Direction::East => 1,
            Direction::South => 2,
            Direction::West => 3,
        };
        (s, o, t.whose_target)
    }
    let mut v: Vec<_> = b.cells.iter().flat_map(|r| r.iter().map(key)).collect();
    v.push(key(&b.loose_tile));
    v.sort();
    v
}

const LOOP: &str = "
    ┌─┐
    │││
    └─┘
";

#[test]
fn parse_board_reads_one_row_per_line() {
    let cells = Board::parse_board(LOOP);
    assert_eq!(cells.len(), 3);
    assert!(cells.iter().all(|r| r.len() == 3));
    assert_eq!(cells[0][0], tile('┌'));
    assert_eq!(cells[1][1], tile('│'));
    assert_eq!(cells[2][2], tile('┘'));
}

#[test]
fn parse_board_skips_characters_that_draw_no_tile() {
    let cells = Board::parse_board("  ┌x─ ┐\n\t└.┘  ");
    assert_eq!(cells.len(), 3);
    assert_eq!(cells[0], vec![tile('┌'), tile('─')]);
    assert_eq!(cells[1], vec![tile('┐')]);
    assert_eq!(cells[2], vec![tile('└'), tile('┘')]);
    assert!(Board::parse_board("   \n  ").is_empty());
}

#[test]
fn get_width_height_and_positions() {
    let b = board("┌─┐┐\n└─┘┘", '│', (Direction::North, 0), vec![token(1, (0, 0)), token(4, (1, 3))]);
    assert_eq!(b.width(), 4);
    assert_eq!(b.height(), 2);
    assert_eq!(*b.get([3, 1]), tile('┘'));
    assert_eq!(*b.get([1, 0]), tile('─'));
    assert_eq!(b.token_index(4), Some(1));
    assert_eq!(b.token_index(2), None);
    assert_eq!(b.player_pos(4), (1, 3));
}

#[test]
fn move_player_moves_only_that_token() {
    let mut b = board(LOOP, '│', (Direction::North, 0), vec![token(1, (0, 0)), token(2, (2, 2))]);
    b.move_player(2, (1, 2));
    assert_eq!(b.player_pos(2), (1, 2));
    assert_eq!(b.player_pos(1), (0, 0));
}

#[test]
fn inserting_from_the_north_pushes_the_column_down() {
    let mut b = board("│─┐\n└┘┌\n├┬┤", '┴', (Direction::North, 0), vec![token(1, (0, 1)), token(2, (2, 1)), token(3, (2, 2))]);
    let sync = b.insert_loose_tile();
    assert_eq!(sync, AnimSync::Insert(Direction::South, 1));
    assert_eq!(row(&b, 0), "│┴┐");
    assert_eq!(row(&b, 1), "└─┌");
    assert_eq!(row(&b, 2), "├┘┤");
    assert_eq!(b.loose_tile, tile('┬'));
    assert_eq!(b.loose_tile_position, (Direction::South, 0));
    assert_eq!(b.player_pos(1), (1, 1));
    // pushed off the bottom, the token reappears on top
    assert_eq!(b.player_pos(2), (0, 1));
    assert_eq!(b.player_pos(3), (2, 2));
}

#[test]
fn inserting_from_the_south_pushes_the_column_up() {
    let mut b = board("│─┐\n└┘┌\n├┬┤", '┴', (Direction::South, 0), vec![token(1, (0, 1))]);
    let sync = b.insert_loose_tile();
    assert_eq!(sync, AnimSync::Insert(Direction::North, 1));
    assert_eq!(row(&b, 0), "│┘┐");
    assert_eq!(row(&b, 1), "└┬┌");
    assert_eq!(row(&b, 2), "├┴┤");
    assert_eq!(b.loose_tile, tile('─'));
    assert_eq!(b.loose_tile_position, (Direction::North, 0));
    assert_eq!(b.player_pos(1), (2, 1));
}

#[test]
fn inserting_from_the_west_pushes_the_row_right() {
    let mut b = board("│─┐\n└┘┌\n├┬┤", '┴', (Direction::West, 0), vec![token(1, (1, 0)), token(2, (1, 2))]);
    let sync = b.insert_loose_tile();
    assert_eq!(sync, AnimSync::Insert(Direction::East, 1));
    assert_eq!(row(&b, 1), "┴└┘");
    assert_eq!(row(&b, 0), "│─┐");
    assert_eq!(b.loose_tile, tile('┌'));
    assert_eq!(b.loose_tile_position, (Direction::East, 0));
    assert_eq!(b.player_pos(1), (1, 1));
    assert_eq!(b.player_pos(2), (1, 0));
}

#[test]
fn inserting_from_the_east_pushes_the_row_left() {
    let mut b = board("│─┐\n└┘┌\n├┬┤", '┴', (Direction::East, 0), vec![token(1, (1, 0))]);
    let sync = b.insert_loose_tile();
    assert_eq!(sync, AnimSync::Insert(Direction::West, 1));
    assert_eq!(row(&b, 1), "┘┌┴");
    assert_eq!(b.loose_tile, tile('└'));
    assert_eq!(b.loose_tile_position, (Direction::West, 0));
    assert_eq!(b.player_pos(1), (1, 2));
}

#[test]
fn tokens_off_the_pushed_line_stay() {
    let mut b = board("│─┐\n└┘┌\n├┬┤", '┴', (Direction::West, 0), vec![token(1, (0, 0)), token(2, (2, 2))]);
    b.insert_loose_tile();
    assert_eq!(b.player_pos(1), (0, 0));
    assert_eq!(b.player_pos(2), (2, 2));
}

#[test]
fn reinserting_the_pushed_out_tile_restores_the_board() {
    let spec = "┌┬─┘┐\n┐│┬┴┌\n│└┘└┤\n┌└─┴┤\n└││─┘";
    for pos in [(Direction::North, 1), (Direction::South, 0), (Direction::East, 1), (Direction::West, 0)].iter() {
        let before = board(spec, '┤', *pos, vec![token(1, (0, 3)), token(2, (3, 0)), token(3, (4, 1))]);
        let mut b = board(spec, '┤', *pos, vec![token(1, (0, 3)), token(2, (3, 0)), token(3, (4, 1))]);
        b.insert_loose_tile();
        b.insert_loose_tile();
        assert_eq!(b.cells, before.cells);
        assert_eq!(b.loose_tile, before.loose_tile);
        assert_eq!(b.loose_tile_position, before.loose_tile_position);
        for (t, o) in b.player_tokens.iter().zip(before.player_tokens.iter()) {
            assert_eq!(t.position, o.position);
        }
    }
}

#[test]
fn inserting_keeps_every_tile() {
    let spec = "┌┬─┘┐\n┐│┬┴┌\n│└┘└┤\n┌└─┴┤\n└││─┘";
    for pos in [(Direction::North, 0), (Direction::North, 1), (Direction::South, 1), (Direction::East, 0), (Direction::West, 1)].iter() {
        let mut b = board(spec, '┤', *pos, vec![]);
        b.cells[1][1].whose_target = Some(3);
        b.cells[3][3].whose_target = Some(4);
        let before = inventory(&b);
        for _ in 0..3 {
            b.insert_loose_tile();
            assert_eq!(inventory(&b), before);
        }
    }
}

#[test]
fn reachable_coords_follow_open_connections() {
    let b = board(LOOP, '│', (Direction::North, 0), vec![]);
    let ring = vec![(0, 0), (0, 1), (0, 2), (1, 0), (1, 2), (2, 0), (2, 1), (2, 2)];
    assert_eq!(sorted(b.reachable_coords((0, 0))), ring);
    assert_eq!(sorted(b.reachable_coords((2, 1))), ring);
    assert_eq!(b.reachable_coords((1, 1)), vec![(1, 1)]);
}

#[test]
fn reachable_coords_need_both_tiles_open() {
    // ┌ opens east, but │ next to it has a wall on that side
    let blocked = board("┌│", '│', (Direction::North, 0), vec![]);
    assert_eq!(blocked.reachable_coords((0, 0)), vec![(0, 0)]);
    let open = board("┌┐", '│', (Direction::North, 0), vec![]);
    assert_eq!(sorted(open.reachable_coords((0, 0))), vec![(0, 0), (0, 1)]);
    // around the wall, through the lower row
    let around = board("┌│\n└┘", '│', (Direction::North, 0), vec![]);
    assert_eq!(sorted(around.reachable_coords((0, 0))), vec![(0, 0), (0, 1), (1, 0), (1, 1)]);
}

#[test]
fn reachability_is_symmetric() {
    let spec = "┌┬─┘┐\n┐│┬┴┌\n│└┘└┤\n┌└─┴┤\n└││─┘";
    let b = board(spec, '┤', (Direction::North, 0), vec![]);
    for r in 0..5 {
        for c in 0..5 {
            for q in b.reachable_coords((r, c)) {
                assert!(b.reachable_coords(q).contains(&(r, c)));
            }
        }
    }
}

#[test]
fn nearly_reachable_adds_one_step_off_the_path() {
    let b = board(LOOP, '│', (Direction::North, 0), vec![]);
    let all: Vec<(usize, usize)> = (0..3).flat_map(|r| (0..3).map(move |c| (r, c))).collect();
    assert_eq!(sorted(b.nearly_reachable_coords((1, 1))), all);
    assert_eq!(sorted(b.nearly_reachable_coords((0, 0))), all);
    let line = board("─ ─ │ │ │ │ ─", '│', (Direction::North, 0), vec![]);
    // a single column of tiles: ─ ─ │ │ │ │ ─ top to bottom
    assert_eq!(sorted(line.reachable_coords((3, 0))), vec![(2, 0), (3, 0), (4, 0), (5, 0)]);
    assert_eq!(sorted(line.nearly_reachable_coords((3, 0))), vec![(1, 0), (2, 0), (3, 0), (4, 0), (5, 0), (6, 0)]);
}

#[test]
fn target_candidates_prefer_cells_out_of_easy_reach() {
    let line = board("─ ─ │ │ │ │ ─ ─", '│', (Direction::North, 0), vec![]);
    // nearly reachable from (3,0): rows 1..=6; free: all but (3,0)
    assert_eq!(sorted(line.target_candidates((3, 0))), vec![(0, 0), (7, 0)]);
    let mut full = board(LOOP, '│', (Direction::North, 0), vec![]);
    // every cell is nearly reachable, so every free cell is a candidate
    full.cells[2][2].whose_target = Some(9);
    assert_eq!(
        sorted(full.target_candidates((0, 0))),
        vec![(0, 1), (0, 2), (1, 0), (1, 1), (1, 2), (2, 0), (2, 1)]
    );
}

#[test]
fn reaching_a_target_scores_and_draws_a_new_one() {
    for _ in 0..20 {
        let mut b = board(LOOP, '│', (Direction::North, 0), vec![token(1, (1, 1)), token(2, (0, 0))]);
        b.cells[1][1].whose_target = Some(1);
        b.cells[2][2].whose_target = Some(2);
        b.player_reached_target(1);
        assert_eq!(b.player_tokens[0].score, 1);
        assert_eq!(b.player_tokens[1].score, 0);
        assert_eq!(b.cells[1][1].whose_target, None);
        assert_eq!(b.cells[2][2].whose_target, Some(2));
        let mine: Vec<(usize, usize)> = (0..3)
            .flat_map(|r| (0..3).map(move |c| (r, c)))
            .filter(|&(r, c)| b.cells[r][c].whose_target == Some(1))
            .collect();
        assert_eq!(mine.len(), 1);
        assert_ne!(mine[0], (1, 1));
        assert_ne!(mine[0], (2, 2));
    }
}

#[test]
fn reaching_a_target_without_a_token_changes_nothing() {
    let mut b = board(LOOP, '│', (Direction::North, 0), vec![token(1, (1, 1))]);
    b.player_reached_target(5);
    assert_eq!(b.player_tokens[0].score, 0);
    assert_eq!(b.cells, Board::parse_board(LOOP));
}

#[test]
fn token_scores_count_up() {
    let mut t = PlayerToken::new(&player(3), (1, 2));
    assert_eq!((t.player_id, t.position, t.score), (3, (1, 2), 0));
    t.reached_target();
    t.reached_target();
    assert_eq!(t.score, 2);
}

fn check_fresh(b: &Board, w: usize, h: usize, players: &[Player]) {
    assert_eq!(b.width(), w);
    assert_eq!(b.height(), h);
    assert!(b.cells.iter().all(|r| r.len() == w));
    assert_eq!(draw(b.cells[0][0]), '┌');
    assert_eq!(draw(b.cells[0][w - 1]), '┐');
    assert_eq!(draw(b.cells[h - 1][0]), '└');
    assert_eq!(draw(b.cells[h - 1][w - 1]), '┘');
    for c in (0..w).step_by(2) {
        assert!(!b.cells[0][c].has_path(Direction::North));
        assert!(!b.cells[h - 1][c].has_path(Direction::South));
    }
    for r in (0..h).step_by(2) {
        assert!(!b.cells[r][0].has_path(Direction::West));
        assert!(!b.cells[r][w - 1].has_path(Direction::East));
    }
    assert_eq!(b.loose_tile.whose_target, None);
    match b.loose_tile_position.0 {
        Direction::North | Direction::South => assert!(b.loose_tile_position.1 < h / 2),
        Direction::East | Direction::West => assert!(b.loose_tile_position.1 < w / 2),
    }
    let corners = [(0, 0), (h - 1, w - 1), (0, w - 1), (h - 1, 0)];
    assert_eq!(b.player_tokens.len(), players.len());
    let mut targets = 0;
    for (i, (t, p)) in b.player_tokens.iter().zip(players.iter()).enumerate() {
        assert_eq!(t.player_id, p.id);
        assert_eq!(t.score, 0);
        assert!(t.position.0 < h && t.position.1 < w);
        if i < 4 {
            assert_eq!(t.position, corners[i]);
        }
        let mine: Vec<(usize, usize)> = (0..h)
            .flat_map(|r| (0..w).map(move |c| (r, c)))
            .filter(|&(r, c)| b.cells[r][c].whose_target == Some(p.id))
            .collect();
        assert_eq!(mine.len(), 1);
        assert_ne!(mine[0], t.position);
        targets += 1;
    }
    let all = b.cells.iter().flatten().filter(|t| t.whose_target.is_some()).count();
    assert_eq!(all, targets);
    assert!(b.tutorial_step.is_none());
    // each target was drawn out of easy reach when the free cells of its time allowed it
    for (j, t) in b.player_tokens.iter().enumerate() {
        let earlier: Vec<u64> = b.player_tokens[..j].iter().map(|u| u.player_id).collect();
        let cells: Vec<(usize, usize)> = (0..h).flat_map(|r| (0..w).map(move |c| (r, c))).collect();
        let free = cells
            .iter()
            .filter(|&&p| p != t.position && !b.cells[p.0][p.1].whose_target.map_or(false, |id| earlier.contains(&id)))
            .count();
        let target = *cells.iter().find(|&&p| b.cells[p.0][p.1].whose_target == Some(t.player_id)).unwrap();
        let easy = b.nearly_reachable_coords(t.position);
        if free > easy.len() {
            assert!(!easy.contains(&target));
        }
    }
}

#[test]
fn new_boards_have_fixed_corners_inward_edges_and_one_target_each() {
    let players: Vec<Player> = vec![player(1), player(5), player(9)];
    for _ in 0..10 {
        let b = Board::new(7, 7, &players, false);
        check_fresh(&b, 7, 7, &players);
    }
    let b = Board::new(5, 9, &players, false);
    check_fresh(&b, 5, 9, &players);
    let b = Board::new(2, 2, &vec![player(1)], false);
    check_fresh(&b, 2, 2, &vec![player(1)]);
}

#[test]
fn new_boards_place_extra_players_anywhere() {
    let players: Vec<Player> = (1..=6).map(player).collect();
    for _ in 0..5 {
        let b = Board::new(3, 3, &players, false);
        check_fresh(&b, 3, 3, &players);
    }
}

#[test]
fn a_token_pushed_off_a_one_row_board_comes_back_on_the_inserted_tile() {
    let mut b = board("───│───", '─', (Direction::North, 1), vec![token(1, (0, 3)), token(2, (0, 4))]);
    b.insert_loose_tile();
    assert_eq!(b.player_pos(1), (0, 3));
    assert_eq!(b.player_pos(2), (0, 4));
    assert_eq!(draw(b.loose_tile), '│');
}

#[test]
fn tokens_wrap_within_their_line_on_boards_that_are_not_square() {
    // 5 wide, 3 high
    let spec = "┌┬─┘┐\n┐│┬┴┌\n│└┘└┤";
    let cases = [
        ((Direction::North, 0), (2, 1), (0, 1)),
        ((Direction::South, 1), (0, 3), (2, 3)),
        ((Direction::West, 0), (1, 4), (1, 0)),
        ((Direction::East, 0), (1, 0), (1, 4)),
    ];
    for (pos, from, to) in cases.iter() {
        let mut b = board(spec, '┤', *pos, vec![token(1, *from)]);
        b.insert_loose_tile();
        assert_eq!(b.player_pos(1), *to);
    }
}

#[test]
fn reinserting_restores_wrapped_tokens_on_boards_that_are_not_square() {
    let spec = "┌┬─┘┐\n┐│┬┴┌\n│└┘└┤";
    for pos in [(Direction::North, 0), (Direction::South, 1), (Direction::East, 0), (Direction::West, 0)].iter() {
        let tokens = vec![token(1, (2, 1)), token(2, (0, 3)), token(3, (1, 4)), token(4, (1, 0))];
        let before = board(spec, '┤', *pos, tokens.clone());
        let mut b = board(spec, '┤', *pos, tokens);
        b.insert_loose_tile();
        b.insert_loose_tile();
        assert_eq!(b.cells, before.cells);
        assert_eq!(b.loose_tile, before.loose_tile);
        for (t, o) in b.player_tokens.iter().zip(before.player_tokens.iter()) {
            assert_eq!(t.position, o.position);
        }
    }
}

#[test]
fn in_demonstration_mode_new_boards_are_the_demo_board() {
    let players: Vec<Player> = vec![player(1), player(5)];
    let b = Board::new(3, 3, &players, true);
    let d = dynamaze::demo::new_board(&players);
    assert_eq!(b.cells, d.cells);
    assert_eq!(b.loose_tile, d.loose_tile);
    assert_eq!(b.loose_tile_position, d.loose_tile_position);
    assert_eq!(b.player_tokens.len(), d.player_tokens.len());
    for (t, u) in b.player_tokens.iter().zip(d.player_tokens.iter()) {
        assert_eq!((t.player_id, t.position, t.score), (u.player_id, u.position, u.score));
    }
}
