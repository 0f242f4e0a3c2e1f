//! The fixed board used for demonstrations.

use vstd::prelude::*;

use crate::board::{grid_of, Board, PlayerToken};
use crate::controller::{BoardController, BoardSettings, TurnState};
use crate::generate::{players_sorted, start_corner};
use crate::parse::{tile_row, tiles_of};
use crate::player::{Color, Player};
use crate::targets::with_target;
use crate::tile::{Direction, Shape, Tile};

verus! {

/// The command-line argument that launches the game in demonstration mode.
pub open spec fn demo_flag() -> Seq<char> {
    "--demo"@
}

/// Checks to see if the game was launched with the `--demo` argument: whether one of the given
/// command-line arguments is exactly `--demo`.
pub fn is_demo(args: &Vec<String>) -> (r: bool)
    ensures
        r == exists|i: int| 0 <= i < args@.len() && #[trigger] args@[i]@ == demo_flag(),
{
    let flag = "--demo".to_owned();
    let mut i: usize = 0;
    while i < args.len()
        invariant
            i <= args@.len(),
            flag@ == demo_flag(),
            forall|k: int| 0 <= k < i ==> #[trigger] args@[k]@ != demo_flag(),
        decreases args@.len() - i,
    {
        if args[i] == flag {
            return true;
        }
        i = i + 1;
    }
    false
}

/// The demonstration layout, row by row.
pub open spec fn demo_layout() -> Seq<Seq<Tile>> {
    seq![
        tiles_of("┌┬─┘┐─┐"@),
        tiles_of("┐│┬┴┌├┘"@),
        tiles_of("│└┘└┤┌┤"@),
        tiles_of("┌└─┴┤├┐"@),
        tiles_of("└││─┘─┐"@),
        tiles_of("┌┌└─┤┘┤"@),
        tiles_of("└─┘┬└┬┘"@),
    ]
}

/// The demonstration grid with the targets of the (up to four) players placed.
pub open spec fn demo_grid(players: Seq<Player>) -> Seq<Seq<Tile>> {
    let g0 = with_target(demo_layout(), (2, 3), Some(players[0].id));
    let g1 = if players.len() > 1 {
        with_target(g0, (1, 0), Some(players[1].id))
    } else {
        g0
    };
    let g2 = if players.len() > 2 {
        with_target(g1, (3, 4), Some(players[2].id))
    } else {
        g1
    };
    if players.len() > 3 {
        with_target(g2, (0, 2), Some(players[3].id))
    } else {
        g2
    }
}

fn demo_rows() -> (r: Vec<Vec<Tile>>)
    ensures
        grid_of(r@) == demo_layout(),
        r@.len() == 7,
        forall|k: int| 0 <= k < 7 ==> #[trigger] r@[k]@.len() == 7,
{
    proof {
        reveal_strlit("┌┬─┘┐─┐");
        reveal_strlit("┐│┬┴┌├┘");
        reveal_strlit("│└┘└┤┌┤");
        reveal_strlit("┌└─┴┤├┐");
        reveal_strlit("└││─┘─┐");
        reveal_strlit("┌┌└─┤┘┤");
        reveal_strlit("└─┘┬└┬┘");
        reveal_with_fuel(tiles_of, 8);
    }
    let mut cells: Vec<Vec<Tile>> = Vec::new();
    cells.push(tile_row("┌┬─┘┐─┐"));
    cells.push(tile_row("┐│┬┴┌├┘"));
    cells.push(tile_row("│└┘└┤┌┤"));
    cells.push(tile_row("┌└─┴┤├┐"));
    cells.push(tile_row("└││─┘─┐"));
    cells.push(tile_row("┌┌└─┤┘┤"));
    cells.push(tile_row("└─┘┬└┬┘"));
    proof {
        assert(grid_of(cells@) =~= demo_layout());
        assert forall|k: int| 0 <= k < 7 implies #[trigger] cells@[k]@.len() == 7 by {
            assert(cells@[k]@ == demo_layout()[k]);
        }
    }
    cells
}

/// Whether `b` is the demonstration board for the given players: the fixed 7 by 7 layout with
/// their targets placed, the loose tile `┤` waiting at the first northern guide, and the
/// players, with no score, on the corners in order.
pub open spec fn is_demo_board(b: Board, players: Seq<Player>) -> bool {
    &&& b.wf()
    &&& b.grid() == demo_grid(players)
    &&& b.loose_tile == (Tile { shape: Shape::T, orientation: Direction::South, whose_target: None })
    &&& b.loose_tile_position == (Direction::North, 1usize)
    &&& b.player_tokens@.len() == players.len()
    &&& forall|i: int|
        0 <= i < players.len() ==> #[trigger] b.player_tokens@[i] == (PlayerToken {
            player_id: players[i].id,
            position: start_corner(i, 7, 7),
            score: 0,
        })
    &&& b.tutorial_step is None
}

/// Creates a demo-friendly board for up to four players (given in increasing order of ID): a
/// fixed 7 by 7 layout, targets on fixed cells, and the players on the corners.
pub fn new_board(players: &Vec<Player>) -> (r: Board)
    requires
        players_sorted(players@),
        1 <= players@.len() <= 4,
    ensures
        is_demo_board(r, players@),
{
    let mut cells = demo_rows();
    let loose_tile = match Tile::from_char('┤') {
        Some(t) => t,
        None => {
            proof {
                assert(false);
            }
            Tile { shape: Shape::T, orientation: Direction::South, whose_target: None }
        },
    };
    let loose_tile_position = (Direction::North, 1);
    let height = cells.len();
    let width = cells[0].len();
    let ghost g = demo_layout();
    let t = cells[2][3];
    cells[2][3] = Tile { whose_target: Some(players[0].id), ..t };
    proof {
        assert(grid_of(cells@) =~= with_target(g, (2, 3), Some(players@[0].id)));
    }
    if players.len() > 1 {
        let ghost before = grid_of(cells@);
        let t = cells[1][0];
        cells[1][0] = Tile { whose_target: Some(players[1].id), ..t };
        proof {
            assert(grid_of(cells@) =~= with_target(before, (1, 0), Some(players@[1].id)));
        }
    }
    if players.len() > 2 {
        let ghost before = grid_of(cells@);
        let t = cells[3][4];
        cells[3][4] = Tile { whose_target: Some(players[2].id), ..t };
        proof {
            assert(grid_of(cells@) =~= with_target(before, (3, 4), Some(players@[2].id)));
        }
    }
    if players.len() > 3 {
        let ghost before = grid_of(cells@);
        let t = cells[0][2];
        cells[0][2] = Tile { whose_target: Some(players[3].id), ..t };
        proof {
            assert(grid_of(cells@) =~= with_target(before, (0, 2), Some(players@[3].id)));
        }
    }
    let mut player_tokens: Vec<PlayerToken> = Vec::new();
    let mut i: usize = 0;
    while i < players.len()
        invariant
            i <= players@.len(),
            players@.len() <= 4,
            height == 7,
            width == 7,
            player_tokens@.len() == i,
            forall|k: int|
                0 <= k < i ==> #[trigger] player_tokens@[k] == (PlayerToken {
                    player_id: players@[k].id,
                    position: start_corner(k, 7, 7),
                    score: 0,
                }),
        decreases players@.len() - i,
    {
        let position = if i == 0 {
            (0, 0)
        } else if i == 1 {
            (height - 1, width - 1)
        } else if i == 2 {
            (0, width - 1)
        } else {
            (height - 1, 0)
        };
        player_tokens.push(PlayerToken::new(&players[i], position));
        i = i + 1;
    }
    let r = Board {
        cells,
        loose_tile,
        loose_tile_position,
        player_tokens,
        tutorial_step: None,
    };
    proof {
        assert(r.grid() == demo_grid(players@));
        assert forall|row: int| 0 <= row < 7 implies #[trigger] r.grid()[row].len() == 7 by {
            assert(r.grid()[row].len() == demo_layout()[row].len());
        }
        assert(r.cells@[0]@ == r.grid()[0]);
    }
    r
}

/// The players of the demonstration: "Player 1" (ID 1) and, living with them, "Player 2" to
/// "Player 4" (IDs 2 to 4), with their colors.
pub open spec fn demo_player_ok(p: Player, i: int) -> bool {
    &&& p.id == i + 1
    &&& p.parent == if i == 0 { None } else { Some(1u64) }
    &&& p.color == if i == 0 {
        Color(51, 102, 153)
    } else if i == 1 {
        Color(102, 51, 153)
    } else if i == 2 {
        Color(153, 51, 102)
    } else {
        Color(102, 153, 51)
    }
}

/// Creates a demo-friendly game: four players living on one machine (player 1 and its
/// children 2 to 4), taking turns in order of ID on the demonstration board, with a score limit
/// of three; player 1 hosts and inserts first.
pub fn new_demo_controller() -> (r: BoardController)
    ensures
        r.wf(),
        r.players@.len() == 4,
        forall|i: int| 0 <= i < 4 ==> demo_player_ok(#[trigger] r.players@[i], i),
        r.players@[0].name@ == "Player 1"@,
        r.players@[1].name@ == "Player 2"@,
        r.players@[2].name@ == "Player 3"@,
        r.players@[3].name@ == "Player 4"@,
        r.turn_order@ == seq![1u64, 2u64, 3u64, 4u64],
        r.host_id == 1,
        r.turn_state == TurnState::InsertTile,
        r.settings == (BoardSettings { score_limit: 3, width: 0, height: 0 }),
        r.board.grid() == demo_grid(r.players@),
        r.board.loose_tile == (Tile { shape: Shape::T, orientation: Direction::South, whose_target: None }),
        r.board.loose_tile_position == (Direction::North, 1usize),
        r.board.player_tokens@.len() == 4,
        forall|i: int|
            0 <= i < 4 ==> #[trigger] r.board.player_tokens@[i] == (PlayerToken {
                player_id: (i + 1) as u64,
                position: start_corner(i, 7, 7),
                score: 0,
            }),
        r.highlighted_tile == (0usize, 0usize),
        r.board.tutorial_step is None,
{
    let player_id: u64 = 1;
    let settings = BoardSettings { score_limit: 3, width: 0, height: 0 };
    let players = vec![
        Player::new("Player 1".to_owned(), Color(51, 102, 153), player_id),
        Player::new_child("Player 2".to_owned(), Color(102, 51, 153), 2, player_id),
        Player::new_child("Player 3".to_owned(), Color(153, 51, 102), 3, player_id),
        Player::new_child("Player 4".to_owned(), Color(102, 153, 51), 4, player_id),
    ];
    let turn_order: Vec<u64> = vec![1, 2, 3, 4];
    let board = new_board(&players);
    let r = BoardController {
        board,
        highlighted_tile: (0, 0),
        players,
        host_id: player_id,
        turn_order,
        turn_state: TurnState::InsertTile,
        settings,
    };
    proof {
        assert(crate::controller::token_ids(r.board.player_tokens@) =~= crate::controller::ids_of(r.players@));
        assert forall|i: int| 0 <= i < r.turn_order@.len() implies r.has_player(#[trigger] r.turn_order@[i]) by {
            assert(r.players@[i].id == r.turn_order@[i]);
        }
        assert forall|i: int| 0 <= i < 4 implies demo_player_ok(#[trigger] r.players@[i], i) by {}
    }
    r
}

} // verus!
