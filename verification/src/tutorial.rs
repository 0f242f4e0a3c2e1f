//! Tutorial steps

use vstd::prelude::*;

use crate::anim::AnimSync;
use crate::board::{grid_of, Board, PlayerToken};
use crate::controller::{BoardController, BoardSettings, TurnState};
use crate::player::{Color, Player, PlayerID};
use crate::parse::{tile_row, tiles_of};
use crate::targets::with_target;
use crate::tile::{Direction, Shape, Tile};

verus! {

/// A step of the tutorial
#[derive(PartialEq, Eq, Structural, Clone, Copy, Debug)]
pub enum TutorialStep {
    /// Basic game structure (ideally, first move)
    First,
    /// Pushing the target off the board
    Second,
    /// Wrapping around the board
    Third,
}

impl TutorialStep {
    /// The step after this one, if there is one.
    pub open spec fn next_spec(self) -> Option<TutorialStep> {
        match self {
            TutorialStep::First => Some(TutorialStep::Second),
            TutorialStep::Second => Some(TutorialStep::Third),
            TutorialStep::Third => None,
        }
    }

    /// `after` is `before` warmed up for this step: the step's tiles, loose tile and insert
    /// guide, with the target of the first player (in order of ID) placed, their token at the
    /// step's start and their score back to zero.
    pub open spec fn applied(self, before: &Board, after: &Board) -> bool {
        let tok = before.player_tokens@[0];
        &&& after.grid() == step_grid(self, tok.player_id)
        &&& after.loose_tile == step_loose_tile(self, tok.player_id)
        &&& after.loose_tile_position == step_loose_position(self)
        &&& after.player_tokens@ == before.player_tokens@.update(
            0,
            PlayerToken { position: step_start(self), score: 0, ..tok },
        )
        &&& after.tutorial_step == Some(self)
    }

    /// Grabs the help text for this step
    pub fn text(&self) -> (r: &str)
        ensures
            r@ == match *self {
                TutorialStep::First => "You're the circle, your target is the striped square."@,
                TutorialStep::Second =>
                    "Targets can be pushed off the board; if you get to insert your own, put it nearby."@,
                TutorialStep::Third =>
                    "If you push yourself off the board, you'll reappear on the other side."@,
            },
    {
        match *self {
            TutorialStep::First => "You're the circle, your target is the striped square.",
            TutorialStep::Second => {
                "Targets can be pushed off the board; if you get to insert your own, put it nearby."
            },
            TutorialStep::Third => {
                "If you push yourself off the board, you'll reappear on the other side."
            },
        }
    }

    /// Gets the next step of the tutorial, if there is one
    pub fn next(&self) -> (r: Option<TutorialStep>)
        ensures
            r == self.next_spec(),
    {
        match *self {
            TutorialStep::First => Some(TutorialStep::Second),
            TutorialStep::Second => Some(TutorialStep::Third),
            TutorialStep::Third => None,
        }
    }

    /// Warms up the given board for this to be the current tutorial step: the step's tiles,
    /// loose tile and insert guide, the first player's (in order of ID) target and token
    /// position, with their score back to zero.
    pub fn apply(&self, board: &mut Board)
        requires
            old(board).player_tokens@.len() >= 1,
        ensures
            self.applied(&*old(board), &*final(board)),
            old(board).tokens_sorted() ==> final(board).wf(),
    {
        let step = *self;
        let my_id = board.player_tokens[0].player_id;
        let ghost tokens0 = board.player_tokens@;
        let mut cells = step_rows(step);
        let ghost layout = grid_of(cells@);
        let mut loose_tile = match step {
            TutorialStep::First => Tile { shape: Shape::I, orientation: Direction::North, whose_target: None },
            TutorialStep::Second => Tile { shape: Shape::L, orientation: Direction::East, whose_target: None },
            TutorialStep::Third => Tile { shape: Shape::I, orientation: Direction::East, whose_target: None },
        };
        let loose_tile_position = match step {
            TutorialStep::First => (Direction::North, 1),
            TutorialStep::Second => (Direction::East, 2),
            TutorialStep::Third => (Direction::North, 2),
        };
        let start = match step {
            TutorialStep::First => (0, 0),
            TutorialStep::Second => (6, 6),
            TutorialStep::Third => (6, 5),
        };
        match step {
            TutorialStep::First => {
                let t = cells[0][6];
                cells[0][6] = Tile { whose_target: Some(my_id), ..t };
                proof {
                    assert(grid_of(cells@) =~= with_target(layout, (0, 6), Some(my_id)));
                }
            },
            TutorialStep::Second => {
                loose_tile.whose_target = Some(my_id);
            },
            TutorialStep::Third => {
                let t = cells[2][2];
                cells[2][2] = Tile { whose_target: Some(my_id), ..t };
                proof {
                    assert(grid_of(cells@) =~= with_target(layout, (2, 2), Some(my_id)));
                }
            },
        }
        board.cells = cells;
        board.loose_tile = loose_tile;
        board.loose_tile_position = loose_tile_position;
        let tok = board.player_tokens[0];
        board.player_tokens.set(0, PlayerToken { position: start, score: 0, ..tok });
        board.tutorial_step = Some(step);
        proof {
            assert(board.grid() == step_grid(step, my_id));
            assert(board.cells@[0]@ == board.grid()[0]);
            assert forall|r: int| 0 <= r < board.grid().len() implies #[trigger] board.grid()[r].len() == 7 by {
                assert(board.grid()[r] == board.cells@[r]@);
            }
            if old(board).tokens_sorted() {
                assert forall|a: int, b: int|
                    0 <= a < b < board.player_tokens@.len() implies #[trigger] board.player_tokens@[a].player_id
                    < #[trigger] board.player_tokens@[b].player_id by {
                    assert(tokens0[a].player_id < tokens0[b].player_id);
                }
            }
        }
    }
}

/// The tiles of a tutorial step's board, row by row, before targets are placed.
pub open spec fn step_layout(step: TutorialStep) -> Seq<Seq<Tile>> {
    match step {
        TutorialStep::First => seq![tiles_of("───│───"@)],
        TutorialStep::Second => seq![
            tiles_of("┘┘┘┘┘┘┘"@),
            tiles_of("┘┘┘┘┘┘┘"@),
            tiles_of("┘┘┘┘┘┘┘"@),
            tiles_of("┘┘┘┘┘┘┘"@),
            tiles_of("┘┘┘┘┘┘┘"@),
            tiles_of("┘┘┘┘┘┘┘"@),
            tiles_of("┘┘┘┘┘┘┘"@),
        ],
        TutorialStep::Third => seq![
            tiles_of("┌────┘┘"@),
            tiles_of("└─┐┘┘┘┘"@),
            tiles_of("┘┘┘┘┘┘┘"@),
            tiles_of("┘┘┘┘┘┘┘"@),
            tiles_of("┘┘┘┘┘┘┘"@),
            tiles_of("┘┘┘┘┘┘┘"@),
            tiles_of("┘┘┘┘┘┘┘"@),
        ],
    }
}

/// The loose tile of a tutorial step, before targets are placed: `│`, `┌` and `─`.
pub open spec fn step_loose(step: TutorialStep) -> Tile {
    match step {
        TutorialStep::First => Tile { shape: Shape::I, orientation: Direction::North, whose_target: None },
        TutorialStep::Second => Tile { shape: Shape::L, orientation: Direction::East, whose_target: None },
        TutorialStep::Third => Tile { shape: Shape::I, orientation: Direction::East, whose_target: None },
    }
}

/// The insert guide the loose tile waits at in a tutorial step.
pub open spec fn step_loose_position(step: TutorialStep) -> (Direction, usize) {
    match step {
        TutorialStep::First => (Direction::North, 1usize),
        TutorialStep::Second => (Direction::East, 2usize),
        TutorialStep::Third => (Direction::North, 2usize),
    }
}

/// Where the player's token starts in a tutorial step.
pub open spec fn step_start(step: TutorialStep) -> (usize, usize) {
    match step {
        TutorialStep::First => (0usize, 0usize),
        TutorialStep::Second => (6usize, 6usize),
        TutorialStep::Third => (6usize, 5usize),
    }
}

/// The cell holding the player's target in a tutorial step (in the second step the target is
/// on the loose tile instead).
pub open spec fn step_target(step: TutorialStep) -> Option<(usize, usize)> {
    match step {
        TutorialStep::First => Some((0usize, 6usize)),
        TutorialStep::Second => None,
        TutorialStep::Third => Some((2usize, 2usize)),
    }
}

/// The grid of a tutorial step with the target of player `id` placed.
pub open spec fn step_grid(step: TutorialStep, id: u64) -> Seq<Seq<Tile>> {
    match step_target(step) {
        Some(q) => with_target(step_layout(step), q, Some(id)),
        None => step_layout(step),
    }
}

/// The loose tile of a tutorial step with the target of player `id` placed.
pub open spec fn step_loose_tile(step: TutorialStep, id: u64) -> Tile {
    match step {
        TutorialStep::Second => Tile { whose_target: Some(id), ..step_loose(step) },
        _ => step_loose(step),
    }
}

fn step_rows(step: TutorialStep) -> (r: Vec<Vec<Tile>>)
    ensures
        grid_of(r@) == step_layout(step),
        r@.len() >= 1,
        forall|k: int| 0 <= k < r@.len() ==> #[trigger] r@[k]@.len() == 7,
        step != TutorialStep::First ==> r@.len() == 7,
{
    proof {
        reveal_strlit("───│───");
        reveal_strlit("┘┘┘┘┘┘┘");
        reveal_strlit("┌────┘┘");
        reveal_strlit("└─┐┘┘┘┘");
        reveal_with_fuel(tiles_of, 8);
    }
    let mut cells: Vec<Vec<Tile>> = Vec::new();
    match step {
        TutorialStep::First => {
            cells.push(tile_row("───│───"));
        },
        TutorialStep::Second => {
            let mut k: usize = 0;
            while k < 7
                invariant
                    k <= 7,
                    cells@.len() == k,
                    forall|j: int| 0 <= j < k ==> #[trigger] cells@[j]@ == tiles_of("┘┘┘┘┘┘┘"@),
                decreases 7 - k,
            {
                cells.push(tile_row("┘┘┘┘┘┘┘"));
                k = k + 1;
            }
        },
        TutorialStep::Third => {
            cells.push(tile_row("┌────┘┘"));
            cells.push(tile_row("└─┐┘┘┘┘"));
            let mut k: usize = 2;
            while k < 7
                invariant
                    2 <= k <= 7,
                    cells@.len() == k,
                    cells@[0]@ == tiles_of("┌────┘┘"@),
                    cells@[1]@ == tiles_of("└─┐┘┘┘┘"@),
                    forall|j: int| 2 <= j < k ==> #[trigger] cells@[j]@ == tiles_of("┘┘┘┘┘┘┘"@),
                decreases 7 - k,
            {
                cells.push(tile_row("┘┘┘┘┘┘┘"));
                k = k + 1;
            }
        },
    }
    proof {
        assert(grid_of(cells@) =~= step_layout(step));
        assert forall|k: int| 0 <= k < cells@.len() implies #[trigger] cells@[k]@.len() == 7 by {
            assert(cells@[k]@ == step_layout(step)[k]);
        }
    }
    cells
}

/// The lesson of the third tutorial step works: once the step is set up, inserting the loose
/// tile at its guide pushes the player's token off the bottom of its column, so that it
/// reappears at the top (row 0, column 5), and from there the open paths lead to the player's
/// target at row 2, column 2.
pub proof fn lemma_third_step_wraps_to_target(b0: &Board, b1: &Board, b2: &Board, s: AnimSync)
    requires
        b0.player_tokens@.len() >= 1,
        TutorialStep::Third.applied(b0, b1),
        b1.insert_effect(b2, s),
    ensures
        b2.player_tokens@[0].position == (0usize, 5usize),
        b2.cell((2usize, 2usize)).whose_target == Some(b0.player_tokens@[0].player_id),
        b2.reachable((0usize, 5usize), (2usize, 2usize)),
{
    reveal_strlit("┌────┘┘");
    reveal_strlit("└─┐┘┘┘┘");
    reveal_strlit("┘┘┘┘┘┘┘");
    reveal_with_fuel(tiles_of, 8);
    let id = b0.player_tokens@[0].player_id;
    let g = step_layout(TutorialStep::Third);
    let up_right = Tile { shape: Shape::L, orientation: Direction::East, whose_target: None };
    let across = Tile { shape: Shape::I, orientation: Direction::East, whose_target: None };
    let up_left = Tile { shape: Shape::L, orientation: Direction::North, whose_target: None };
    let down_left = Tile { shape: Shape::L, orientation: Direction::South, whose_target: None };
    let left_up = Tile { shape: Shape::L, orientation: Direction::West, whose_target: None };
    assert(g[0] == seq![up_right, across, across, across, across, left_up, left_up]);
    assert(g[1] == seq![up_left, across, down_left, left_up, left_up, left_up, left_up]);
    assert(g[2] == seq![left_up, left_up, left_up, left_up, left_up, left_up, left_up]);
    assert(g.len() == 7);
    // the board after the step is set up, and after the insert
    let g1 = b1.grid();
    assert(g1 == with_target(g, (2usize, 2usize), Some(id)));
    assert(b1.cells@.len() == g1.len());
    assert(b1.cells@[0]@ == g1[0]);
    assert(b1.width_spec() == 7 && b1.height_spec() == 7);
    assert(b1.loose_tile == across);
    let g2 = b2.grid();
    assert(g2 == crate::board::shifted_grid(g1, across, Direction::North, 5, 7, 7));
    assert(b2.cells@.len() == g2.len());
    assert(b2.cells@[0]@ == g2[0]);
    assert(b2.width_spec() == 7 && b2.height_spec() == 7);
    // the token wraps round to the top of its column
    assert(b1.player_tokens@[0].position == (6usize, 5usize));
    assert(Direction::North.opposite() == Direction::South);
    assert(b2.player_tokens@[0] == crate::board::shifted_token(b1.player_tokens@[0], Direction::South, 5, 7, 7));
    assert(14usize % 7usize == 0usize);
    assert(5usize % 7usize == 5usize);
    // the tiles on the way
    assert(b2.cell((0usize, 5usize)) == across);
    assert(b2.cell((0usize, 4usize)) == across);
    assert(b2.cell((0usize, 3usize)) == across);
    assert(b2.cell((0usize, 2usize)) == across);
    assert(b2.cell((0usize, 1usize)) == across);
    assert(b2.cell((0usize, 0usize)) == up_right);
    assert(b2.cell((1usize, 0usize)) == up_left);
    assert(b2.cell((1usize, 1usize)) == across);
    assert(b2.cell((1usize, 2usize)) == down_left);
    assert(b2.cell((2usize, 2usize)) == Tile { whose_target: Some(id), ..left_up });
    // which way each of them is open
    assert(across.path_seq() =~= seq![Direction::East, Direction::West]);
    assert(up_right.path_seq() =~= seq![Direction::East, Direction::South]);
    assert(up_left.path_seq() =~= seq![Direction::North, Direction::East]);
    assert(down_left.path_seq() =~= seq![Direction::South, Direction::West]);
    assert(Tile { whose_target: Some(id), ..left_up }.path_seq() =~= seq![Direction::West, Direction::North]);
    assert(across.opens(Direction::East) && across.opens(Direction::West)) by {
        assert(across.path_seq()[0] == Direction::East);
        assert(across.path_seq()[1] == Direction::West);
    }
    assert(up_right.opens(Direction::East) && up_right.opens(Direction::South)) by {
        assert(up_right.path_seq()[0] == Direction::East);
        assert(up_right.path_seq()[1] == Direction::South);
    }
    assert(up_left.opens(Direction::North) && up_left.opens(Direction::East)) by {
        assert(up_left.path_seq()[0] == Direction::North);
        assert(up_left.path_seq()[1] == Direction::East);
    }
    assert(down_left.opens(Direction::South) && down_left.opens(Direction::West)) by {
        assert(down_left.path_seq()[0] == Direction::South);
        assert(down_left.path_seq()[1] == Direction::West);
    }
    assert(b2.cell((2usize, 2usize)).opens(Direction::North)) by {
        assert(b2.cell((2usize, 2usize)).path_seq()[1] == Direction::North);
    }
    // the walk
    let path = seq![
        (0usize, 5usize),
        (0usize, 4usize),
        (0usize, 3usize),
        (0usize, 2usize),
        (0usize, 1usize),
        (0usize, 0usize),
        (1usize, 0usize),
        (1usize, 1usize),
        (1usize, 2usize),
        (2usize, 2usize),
    ];
    assert(b2.adjacent(path[0], path[1]) && b2.edge(path[0], Direction::West));
    assert(b2.adjacent(path[1], path[2]) && b2.edge(path[1], Direction::West));
    assert(b2.adjacent(path[2], path[3]) && b2.edge(path[2], Direction::West));
    assert(b2.adjacent(path[3], path[4]) && b2.edge(path[3], Direction::West));
    assert(b2.adjacent(path[4], path[5]) && b2.edge(path[4], Direction::West));
    assert(b2.adjacent(path[5], path[6]) && b2.edge(path[5], Direction::South));
    assert(b2.adjacent(path[6], path[7]) && b2.edge(path[6], Direction::East));
    assert(b2.adjacent(path[7], path[8]) && b2.edge(path[7], Direction::East));
    assert(b2.adjacent(path[8], path[9]) && b2.edge(path[8], Direction::South));
    assert forall|i: int| 0 <= i < path.len() - 1 implies b2.adjacent(#[trigger] path[i], path[i + 1]) by {
        assert(0 <= i < 9);
    }
    assert(b2.is_path(path));
    assert(path.last() == (2usize, 2usize));
}

/// A tutorial game for one player: a single "Player 1" (color `#336699`), who must first
/// insert, on the board of the first tutorial step, with a score limit of one.
pub fn new_tutorial_controller(player_id: PlayerID) -> (r: BoardController)
    ensures
        r.wf(),
        r.players@ == seq![Player { name: r.players@[0].name, color: Color(51, 102, 153), id: player_id, parent: None }],
        r.players@[0].name@ == "Player 1"@,
        r.turn_order@ == seq![player_id],
        r.host_id == player_id,
        r.turn_state == TurnState::InsertTile,
        r.settings == (BoardSettings { score_limit: 1, width: 3, height: 3 }),
        r.highlighted_tile == (0usize, 0usize),
        r.board.grid() == step_grid(TutorialStep::First, player_id),
        r.board.loose_tile == step_loose_tile(TutorialStep::First, player_id),
        r.board.loose_tile_position == step_loose_position(TutorialStep::First),
        r.board.player_tokens@ == seq![PlayerToken { player_id, position: (0usize, 0usize), score: 0 }],
        r.board.tutorial_step == Some(TutorialStep::First),
{
    let settings = BoardSettings { score_limit: 1, width: 3, height: 3 };
    let players = vec![Player::new("Player 1".to_owned(), Color(51, 102, 153), player_id)];
    let ghost pl = players@;
    proof {
        reveal_with_fuel(crate::controller::roster, 2);
        assert(pl.drop_last() =~= Seq::<Player>::empty());
        assert(crate::controller::roster(pl) == Map::<PlayerID, Player>::empty().insert(player_id, pl[0]));
        assert(crate::controller::roster(pl).dom() =~= set![player_id]);
    }
    // The tutorial then lays out its own board, and a single player's turn order is the same
    // shuffled or not, so demonstration mode would change nothing here.
    let mut board = BoardController::new(settings, players, player_id, false);
    proof {
        assert(crate::controller::ids_of(pl) =~= seq![player_id]);
        assert(board.turn_order@.len() == 1) by {
            vstd::seq_lib::to_multiset_len(board.turn_order@);
            vstd::seq_lib::to_multiset_len(crate::controller::ids_of(pl));
        }
        assert(board.players@.len() == 1) by {
            crate::controller::lemma_roster_count(board.players@, crate::controller::roster(pl));
        }
        assert(crate::controller::ids_of(board.players@).contains(board.players@[0].id)) by {
            assert(crate::controller::ids_of(board.players@)[0] == board.players@[0].id);
        }
        assert(board.players@[0] == pl[0]);
        vstd::seq_lib::to_multiset_contains(board.turn_order@, board.turn_order@[0]);
        vstd::seq_lib::to_multiset_contains(crate::controller::ids_of(pl), board.turn_order@[0]);
        assert(board.turn_order@ =~= seq![player_id]);
    }
    let ghost t0 = board.board.player_tokens@;
    TutorialStep::First.apply(&mut board.board);
    proof {
        assert(board.board.player_tokens@ =~= seq![PlayerToken { player_id, position: (0usize, 0usize), score: 0 }]);
        assert(crate::controller::token_ids(board.board.player_tokens@) =~= crate::controller::token_ids(t0));
    }
    board
}

/// The tutorial has three steps, each leading to the next, and ends after the third.
pub proof fn lemma_tutorial_ends(s: TutorialStep)
    ensures
        s.next_spec() is Some ==> s.next_spec()->0 != s,
        s.next_spec() is Some && s.next_spec()->0.next_spec() is Some ==> s.next_spec()->0.next_spec()->0.next_spec() is None,
{
}

} // verus!
