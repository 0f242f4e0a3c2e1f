//! Turn handling for a game in progress: whose turn it is, what a key or mouse press does on
//! the board, and who has won.

use vstd::prelude::*;

use crate::anim::{AnimSync, RotateDir};
use crate::board::{Board, PlayerToken};
use crate::generate::players_sorted;
use crate::player::{Player, PlayerID};
use crate::rng;
use crate::targets::with_target;
use crate::tile::{move_fits, step_spec, Direction};
use crate::tutorial::TutorialStep;

verus! {

/// What the active player does next
#[derive(PartialEq, Eq, Structural, Clone, Copy, Debug)]
pub enum TurnState {
    /// Insert tile
    InsertTile,
    /// Move token
    MoveToken,
}

/// Controls session-level game settings
#[derive(PartialEq, Eq, Structural, Clone, Copy, Debug)]
pub struct BoardSettings {
    /// Tile width of the board
    pub width: usize,
    /// Tile height of the board
    pub height: usize,
    /// Score required to win
    pub score_limit: u8,
}

/// A key the board reacts to
#[derive(PartialEq, Eq, Structural, Clone, Copy, Debug)]
pub enum BoardKey {
    /// Left arrow
    Left,
    /// Right arrow
    Right,
    /// Up arrow
    Up,
    /// Down arrow
    Down,
    /// Left shift
    LShift,
    /// Right shift
    RShift,
    /// Space bar
    Space,
    /// Any other key
    Other,
}

/// An input event, located on the board by the view
#[derive(Clone, Copy, Debug)]
pub enum BoardInput {
    /// The cursor moved; `guide` is the insert guide under it and `tile` the tile under it
    CursorMoved { guide: Option<(Direction, usize)>, tile: Option<(usize, usize)> },
    /// A key was pressed
    KeyPressed(BoardKey),
    /// A mouse button was pressed: the left one or another; `on_loose_tile` tells whether the
    /// cursor is on the loose tile, and `tile` is the tile under the cursor
    MousePressed { left: bool, on_loose_tile: bool, tile: Option<(usize, usize)> },
}

/// Handles events for a DynaMaze game session
#[derive(Debug)]
pub struct BoardController {
    /// Board state
    pub board: Board,
    /// Highlighted tile
    pub highlighted_tile: (usize, usize),
    /// Players, in increasing order of ID
    pub players: Vec<Player>,
    /// Host
    pub host_id: PlayerID,
    /// Turn order
    pub turn_order: Vec<PlayerID>,
    /// Current turn state
    pub turn_state: TurnState,
    /// Settings
    pub settings: BoardSettings,
}

/// The IDs of the given players, in order.
pub open spec fn ids_of(players: Seq<Player>) -> Seq<PlayerID> {
    players.map_values(|p: Player| p.id)
}

/// The player IDs of the given tokens, in order.
pub open spec fn token_ids(toks: Seq<PlayerToken>) -> Seq<PlayerID> {
    toks.map_values(|t: PlayerToken| t.player_id)
}

/// `s` with its first entry moved to the back.
pub open spec fn rotated<A>(s: Seq<A>) -> Seq<A> {
    if s.len() == 0 {
        s
    } else {
        s.subrange(1, s.len() as int).push(s[0])
    }
}

/// `s` rotated `k` times.
pub open spec fn rotated_times<A>(s: Seq<A>, k: nat) -> Seq<A>
    decreases k,
{
    if k == 0 {
        s
    } else {
        rotated(rotated_times(s, (k - 1) as nat))
    }
}

/// Whether the `i`-th token is the first (in order of player ID) whose score reached `limit`.
pub open spec fn first_scorer(toks: Seq<PlayerToken>, limit: u8, i: int) -> bool {
    &&& 0 <= i < toks.len()
    &&& toks[i].score >= limit
    &&& forall|j: int| 0 <= j < i ==> (#[trigger] toks[j]).score < limit
}

/// Where the loose tile goes from insert guide `pos` when the arrow key towards `m` is pressed,
/// with `gx` guides along the top and bottom edges and `gy` along the left and right edges:
/// along its edge, or around a corner onto the next edge. `None` where the step leaves the
/// range of `usize` (no guides on an edge, or a guide index that cannot grow).
pub open spec fn insert_key_move(m: Direction, pos: (Direction, usize), gx: int, gy: int) -> Option<
    (Direction, usize),
> {
    let n = pos.1;
    match m {
        Direction::West => match pos.0 {
            Direction::East => if gx >= 1 {
                Some((if n < gy / 2 { Direction::North } else { Direction::South }, (gx - 1) as usize))
            } else {
                None
            },
            Direction::West => Some((Direction::West, n)),
            Direction::North => if n == 0 {
                Some((Direction::West, 0usize))
            } else {
                Some((Direction::North, (n - 1) as usize))
            },
            Direction::South => if n == 0 {
                if gy >= 1 {
                    Some((Direction::West, (gy - 1) as usize))
                } else {
                    None
                }
            } else {
                Some((Direction::South, (n - 1) as usize))
            },
        },
        Direction::East => match pos.0 {
            Direction::West => Some(
                (if n < gy / 2 { Direction::North } else { Direction::South }, 0usize),
            ),
            Direction::East => Some((Direction::East, n)),
            Direction::North => if gx < 1 {
                None
            } else if n == gx - 1 {
                Some((Direction::East, 0usize))
            } else if n == usize::MAX {
                None
            } else {
                Some((Direction::North, (if n + 1 < gx - 1 { n + 1 } else { gx - 1 }) as usize))
            },
            Direction::South => if gx < 1 {
                None
            } else if n == gx - 1 {
                if gy >= 1 {
                    Some((Direction::East, (gy - 1) as usize))
                } else {
                    None
                }
            } else if n == usize::MAX {
                None
            } else {
                Some((Direction::South, (if n + 1 < gx - 1 { n + 1 } else { gx - 1 }) as usize))
            },
        },
        Direction::South => match pos.0 {
            Direction::North => Some(
                (if n < gx / 2 { Direction::West } else { Direction::East }, 0usize),
            ),
            Direction::South => Some((Direction::South, n)),
            Direction::West => if gy < 1 {
                None
            } else if n == gy - 1 {
                Some((Direction::South, 0usize))
            } else if n == usize::MAX {
                None
            } else {
                Some((Direction::West, (if n + 1 < gy - 1 { n + 1 } else { gy - 1 }) as usize))
            },
            Direction::East => if gy < 1 {
                None
            } else if n == gy - 1 {
                if gx >= 1 {
                    Some((Direction::South, (gx - 1) as usize))
                } else {
                    None
                }
            } else if n == usize::MAX {
                None
            } else {
                Some((Direction::East, (if n + 1 < gy - 1 { n + 1 } else { gy - 1 }) as usize))
            },
        },
        Direction::North => match pos.0 {
            Direction::South => if gy >= 1 {
                Some((if n < gx / 2 { Direction::West } else { Direction::East }, (gy - 1) as usize))
            } else {
                None
            },
            Direction::North => Some((Direction::North, n)),
            Direction::West => if n == 0 {
                Some((Direction::North, 0usize))
            } else {
                Some((Direction::West, (n - 1) as usize))
            },
            Direction::East => if n == 0 {
                if gx >= 1 {
                    Some((Direction::North, (gx - 1) as usize))
                } else {
                    None
                }
            } else {
                Some((Direction::East, (n - 1) as usize))
            },
        },
    }
}

/// Where the loose tile goes from insert guide `pos` when the arrow key towards `move_dir` is
/// pressed (see `insert_key_move`).
pub fn insert_key_target(move_dir: Direction, pos: (Direction, usize), guides_x: usize, guides_y: usize) -> (r:
    Option<(Direction, usize)>)
    ensures
        r == insert_key_move(move_dir, pos, guides_x as int, guides_y as int),
{
    let (edge, n) = pos;
    match move_dir {
        Direction::West => match edge {
            Direction::East => {
                if guides_x == 0 {
                    return None;
                }
                let count = guides_x - 1;
                let dir = if n < guides_y / 2 {
                    Direction::North
                } else {
                    Direction::South
                };
                Some((dir, count))
            },
            Direction::West => Some((Direction::West, n)),
            Direction::North => if n == 0 {
                Some((Direction::West, 0))
            } else {
                Some((Direction::North, n - 1))
            },
            Direction::South => if n == 0 {
                if guides_y == 0 {
                    None
                } else {
                    Some((Direction::West, guides_y - 1))
                }
            } else {
                Some((Direction::South, n - 1))
            },
        },
        Direction::East => match edge {
            Direction::West => {
                let dir = if n < guides_y / 2 {
                    Direction::North
                } else {
                    Direction::South
                };
                Some((dir, 0))
            },
            Direction::East => Some((Direction::East, n)),
            Direction::North => if guides_x == 0 {
                None
            } else if n == guides_x - 1 {
                Some((Direction::East, 0))
            } else if n == usize::MAX {
                None
            } else {
                let next = n + 1;
                Some((Direction::North, if next < guides_x - 1 { next } else { guides_x - 1 }))
            },
            Direction::South => if guides_x == 0 {
                None
            } else if n == guides_x - 1 {
                if guides_y == 0 {
                    None
                } else {
                    Some((Direction::East, guides_y - 1))
                }
            } else if n == usize::MAX {
                None
            } else {
                let next = n + 1;
                Some((Direction::South, if next < guides_x - 1 { next } else { guides_x - 1 }))
            },
        },
        Direction::South => match edge {
            Direction::North => {
                let dir = if n < guides_x / 2 {
                    Direction::West
                } else {
                    Direction::East
                };
                Some((dir, 0))
            },
            Direction::South => Some((Direction::South, n)),
            Direction::West => if guides_y == 0 {
                None
            } else if n == guides_y - 1 {
                Some((Direction::South, 0))
            } else if n == usize::MAX {
                None
            } else {
                let next = n + 1;
                Some((Direction::West, if next < guides_y - 1 { next } else { guides_y - 1 }))
            },
            Direction::East => if guides_y == 0 {
                None
            } else if n == guides_y - 1 {
                if guides_x == 0 {
                    None
                } else {
                    Some((Direction::South, guides_x - 1))
                }
            } else if n == usize::MAX {
                None
            } else {
                let next = n + 1;
                Some((Direction::East, if next < guides_y - 1 { next } else { guides_y - 1 }))
            },
        },
        Direction::North => match edge {
            Direction::South => {
                if guides_y == 0 {
                    return None;
                }
                let count = guides_y - 1;
                let dir = if n < guides_x / 2 {
                    Direction::West
                } else {
                    Direction::East
                };
                Some((dir, count))
            },
            Direction::North => Some((Direction::North, n)),
            Direction::West => if n == 0 {
                Some((Direction::North, 0))
            } else {
                Some((Direction::West, n - 1))
            },
            Direction::East => if n == 0 {
                if guides_x == 0 {
                    None
                } else {
                    Some((Direction::North, guides_x - 1))
                }
            } else {
                Some((Direction::East, n - 1))
            },
        },
    }
}

/// Whether insert guide `pos` exists with `gx` guides along the top and bottom edges and `gy`
/// along the left and right edges.
pub open spec fn guide_valid(pos: (Direction, usize), gx: int, gy: int) -> bool {
    match pos.0 {
        Direction::North | Direction::South => pos.1 < gx,
        Direction::East | Direction::West => pos.1 < gy,
    }
}

/// Moving the loose tile with the arrow keys keeps it on an existing insert guide, as long as
/// every edge has guides.
pub proof fn lemma_insert_key_stays_on_guides(m: Direction, pos: (Direction, usize), gx: int, gy: int)
    requires
        1 <= gx <= usize::MAX,
        1 <= gy <= usize::MAX,
        guide_valid(pos, gx, gy),
    ensures
        insert_key_move(m, pos, gx, gy) is Some,
        guide_valid(insert_key_move(m, pos, gx, gy)->0, gx, gy),
{
}

/// Whether `pos` names an insert guide on a board with `gx` guides along the top and bottom
/// edges and `gy` along the left and right ones.
pub open spec fn on_guide(pos: (Direction, usize), gx: int, gy: int) -> bool {
    match pos.0 {
        Direction::North | Direction::South => pos.1 < gx,
        Direction::East | Direction::West => pos.1 < gy,
    }
}

/// The arrow keys walk the loose tile round the board's insert guides. Along the top and bottom
/// edges the left and right keys move it one guide that way (the guide index goes down towards
/// the west and up towards the east); along the left and right edges the up and down keys move
/// it one guide up or down. At the end of an edge the key takes it round the corner to the
/// nearest guide of the next edge, and the key pointing off its own edge leaves it in place.
/// From the opposite edge, the key takes it to the end of the nearer adjacent edge that lies
/// that way. Moving one guide along an edge and back returns to the start.
pub proof fn lemma_insert_keys_walk_the_guides(m: Direction, pos: (Direction, usize), gx: int, gy: int)
    requires
        1 <= gx < usize::MAX,
        1 <= gy < usize::MAX,
        on_guide(pos, gx, gy),
    ensures
        ({
            let (e, n) = pos;
            let r = insert_key_move(m, pos, gx, gy)->0;
            &&& insert_key_move(m, pos, gx, gy) is Some
            // along the top and bottom edges
            &&& (e == Direction::North || e == Direction::South) && m == Direction::West && n > 0 ==> r
                == (e, (n - 1) as usize)
            &&& (e == Direction::North || e == Direction::South) && m == Direction::East && n + 1 < gx ==> r
                == (e, (n + 1) as usize)
            // along the left and right edges
            &&& (e == Direction::East || e == Direction::West) && m == Direction::North && n > 0 ==> r
                == (e, (n - 1) as usize)
            &&& (e == Direction::East || e == Direction::West) && m == Direction::South && n + 1 < gy ==> r
                == (e, (n + 1) as usize)
            // round the corners
            &&& e == Direction::North && m == Direction::West && n == 0 ==> r == (Direction::West, 0usize)
            &&& e == Direction::South && m == Direction::West && n == 0 ==> r == (Direction::West, (gy
                - 1) as usize)
            &&& e == Direction::North && m == Direction::East && n == gx - 1 ==> r == (Direction::East, 0usize)
            &&& e == Direction::South && m == Direction::East && n == gx - 1 ==> r == (Direction::East, (gy
                - 1) as usize)
            &&& e == Direction::West && m == Direction::North && n == 0 ==> r == (Direction::North, 0usize)
            &&& e == Direction::East && m == Direction::North && n == 0 ==> r == (Direction::North, (gx
                - 1) as usize)
            &&& e == Direction::West && m == Direction::South && n == gy - 1 ==> r == (Direction::South, 0usize)
            &&& e == Direction::East && m == Direction::South && n == gy - 1 ==> r == (Direction::South, (gx
                - 1) as usize)
            // the key pointing off its own edge
            &&& m == e ==> r == pos
            // from the opposite edge, to the end of the nearer adjacent edge that lies that way
            &&& e == Direction::East && m == Direction::West ==> r.1 == gx - 1 && (r.0 == Direction::North
                || r.0 == Direction::South)
            &&& e == Direction::West && m == Direction::East ==> r.1 == 0 && (r.0 == Direction::North
                || r.0 == Direction::South)
            &&& e == Direction::South && m == Direction::North ==> r.1 == gy - 1 && (r.0 == Direction::West
                || r.0 == Direction::East)
            &&& e == Direction::North && m == Direction::South ==> r.1 == 0 && (r.0 == Direction::West
                || r.0 == Direction::East)
        }),
        // one guide along an edge and back
        (pos.0 == Direction::North || pos.0 == Direction::South) && pos.1 > 0 ==> insert_key_move(
            Direction::East,
            insert_key_move(Direction::West, pos, gx, gy)->0,
            gx,
            gy,
        ) == Some(pos),
        (pos.0 == Direction::East || pos.0 == Direction::West) && pos.1 > 0 ==> insert_key_move(
            Direction::South,
            insert_key_move(Direction::North, pos, gx, gy)->0,
            gx,
            gy,
        ) == Some(pos),
{
}

/// The highlighted tile after the arrow key towards `dir` was pressed, on a board of `w` by `h`
/// tiles: one step that way, stopping at the edges.
pub open spec fn moved_highlight(dir: Direction, hl: (usize, usize), w: int, h: int) -> (usize, usize) {
    match dir {
        Direction::North => (if hl.0 > 0 { (hl.0 - 1) as usize } else { 0usize }, hl.1),
        Direction::South => (if hl.0 + 1 < h - 1 { (hl.0 + 1) as usize } else { (h - 1) as usize }, hl.1),
        Direction::East => (hl.0, if hl.1 + 1 < w - 1 { (hl.1 + 1) as usize } else { (w - 1) as usize }),
        Direction::West => (hl.0, if hl.1 > 0 { (hl.1 - 1) as usize } else { 0usize }),
    }
}

/// The arrow keys walk the highlight across the board: on a `w` by `h` board, a highlighted
/// tile on the board moves exactly one step in the key's direction when that step stays on the
/// board, and does not move at all when it would leave it.
pub proof fn lemma_move_keys_step(dir: Direction, hl: (usize, usize), w: int, h: int)
    requires
        1 <= w <= usize::MAX,
        1 <= h <= usize::MAX,
        hl.0 < h,
        hl.1 < w,
    ensures
        move_fits(hl, dir, (w as usize, h as usize)) ==> moved_highlight(dir, hl, w, h) == step_spec(hl, dir),
        !move_fits(hl, dir, (w as usize, h as usize)) ==> moved_highlight(dir, hl, w, h) == hl,
{
}

/// Whether the highlight step towards `dir` stays within the range of `usize`.
pub open spec fn highlight_step_defined(dir: Direction, hl: (usize, usize)) -> bool {
    match dir {
        Direction::South => hl.0 < usize::MAX,
        Direction::East => hl.1 < usize::MAX,
        _ => true,
    }
}

/// The direction an arrow key stands for.
pub open spec fn key_direction(key: BoardKey) -> Option<Direction> {
    match key {
        BoardKey::Left => Some(Direction::West),
        BoardKey::Right => Some(Direction::East),
        BoardKey::Up => Some(Direction::North),
        BoardKey::Down => Some(Direction::South),
        _ => None,
    }
}

fn arrow_direction(key: BoardKey) -> (r: Option<Direction>)
    ensures
        r == key_direction(key),
{
    match key {
        BoardKey::Left => Some(Direction::West),
        BoardKey::Right => Some(Direction::East),
        BoardKey::Up => Some(Direction::North),
        BoardKey::Down => Some(Direction::South),
        _ => None,
    }
}

/// The players of `list` keyed by ID, a later entry replacing an earlier one with the same ID.
pub open spec fn roster(list: Seq<Player>) -> Map<PlayerID, Player>
    decreases list.len(),
{
    if list.len() == 0 {
        Map::empty()
    } else {
        roster(list.drop_last()).insert(list.last().id, list.last())
    }
}

/// `players` lists the players of `m`, each once, in increasing order of ID.
pub open spec fn lists_roster(players: Seq<Player>, m: Map<PlayerID, Player>) -> bool {
    &&& players_sorted(players)
    &&& forall|id: PlayerID| m.dom().contains(id) <==> ids_of(players).contains(id)
    &&& forall|j: int| 0 <= j < players.len() ==> m[(#[trigger] players[j]).id] == players[j]
}

/// The players of `list`, keyed by ID (a later entry replacing an earlier one with the same ID),
/// in increasing order of ID.
fn collect_players(list: &Vec<Player>) -> (r: Vec<Player>)
    ensures
        lists_roster(r@, roster(list@)),
{
    let mut players: Vec<Player> = Vec::new();
    let mut i: usize = 0;
    while i < list.len()
        invariant
            i <= list@.len(),
            lists_roster(players@, roster(list@.subrange(0, i as int))),
        decreases list@.len() - i,
    {
        let p = list[i].clone();
        let ghost before = players@;
        let ghost m0 = roster(list@.subrange(0, i as int));
        proof {
            assert(list@.subrange(0, i + 1).drop_last() =~= list@.subrange(0, i as int));
            assert(list@.subrange(0, i + 1).last() == p);
        }
        let mut k: usize = 0;
        while k < players.len() && players[k].id < p.id
            invariant
                players@ == before,
                k <= players@.len(),
                forall|j: int| 0 <= j < k ==> (#[trigger] players@[j]).id < p.id,
            decreases players@.len() - k,
        {
            k = k + 1;
        }
        if k < players.len() && players[k].id == p.id {
            players.set(k, p);
            proof {
                let m1 = m0.insert(p.id, p);
                assert(ids_of(players@) =~= ids_of(before));
                assert forall|a: int, b: int| 0 <= a < b < players@.len() implies #[trigger] players@[a].id
                    < #[trigger] players@[b].id by {
                    assert(before[a].id < before[b].id);
                }
                assert forall|id: PlayerID| m1.dom().contains(id) <==> ids_of(players@).contains(id) by {
                    if id == p.id {
                        assert(ids_of(players@)[k as int] == id);
                    }
                }
                assert forall|j: int| 0 <= j < players@.len() implies m1[(#[trigger] players@[j]).id]
                    == players@[j] by {
                    if j != k {
                        assert(before[j].id != p.id) by {
                            if j < k {
                                assert(before[j].id < p.id);
                            } else {
                                assert(before[k as int].id < before[j].id);
                            }
                        }
                    }
                }
            }
        } else {
            proof {
                assert forall|j: int| k <= j < before.len() implies #[trigger] before[j].id > p.id by {
                    if j > k {
                        assert(before[k as int].id < before[j].id);
                    }
                }
            }
            players.insert(k, p);
            proof {
                let m1 = m0.insert(p.id, p);
                assert(players@ =~= before.insert(k as int, p));
                assert forall|a: int, b: int| 0 <= a < b < players@.len() implies #[trigger] players@[a].id
                    < #[trigger] players@[b].id by {
                    if a < k && b < k {
                        assert(before[a].id < before[b].id);
                    } else if a < k && b == k {
                    } else if a < k {
                        assert(players@[b] == before[b - 1]);
                    } else if a == k {
                        assert(players@[b] == before[b - 1]);
                    } else {
                        assert(before[a - 1].id < before[b - 1].id);
                    }
                }
                assert forall|id: PlayerID| m1.dom().contains(id) <==> ids_of(players@).contains(id) by {
                    if m1.dom().contains(id) {
                        if id == p.id {
                            assert(ids_of(players@)[k as int] == id);
                        } else {
                            assert(ids_of(before).contains(id));
                            let j = choose|j: int| 0 <= j < before.len() && ids_of(before)[j] == id;
                            if j < k {
                                assert(ids_of(players@)[j] == id);
                            } else {
                                assert(ids_of(players@)[j + 1] == id);
                            }
                        }
                    }
                    if ids_of(players@).contains(id) {
                        let j = choose|j: int| 0 <= j < players@.len() && ids_of(players@)[j] == id;
                        if j < k {
                            assert(ids_of(before)[j] == id);
                        } else if j > k {
                            assert(ids_of(before)[j - 1] == id);
                        }
                    }
                }
                assert forall|j: int| 0 <= j < players@.len() implies m1[(#[trigger] players@[j]).id]
                    == players@[j] by {
                    if j < k {
                        assert(players@[j] == before[j]);
                        assert(before[j].id < p.id);
                    } else if j > k {
                        assert(players@[j] == before[j - 1]);
                        assert(before[j - 1].id > p.id);
                    }
                }
            }
        }
        i = i + 1;
    }
    proof {
        assert(list@.subrange(0, list@.len() as int) =~= list@);
    }
    players
}

/// A player ID is a key of `roster(list)` exactly when it occurs in `list`.
pub proof fn lemma_roster_dom(list: Seq<Player>)
    ensures
        forall|id: PlayerID| roster(list).dom().contains(id) <==> ids_of(list).contains(id),
    decreases list.len(),
{
    if list.len() > 0 {
        let init = list.drop_last();
        lemma_roster_dom(init);
        assert forall|id: PlayerID| roster(list).dom().contains(id) <==> ids_of(list).contains(id) by {
            if ids_of(init).contains(id) {
                let j = choose|j: int| 0 <= j < init.len() && ids_of(init)[j] == id;
                assert(ids_of(list)[j] == id);
            }
            if ids_of(list).contains(id) {
                let j = choose|j: int| 0 <= j < list.len() && ids_of(list)[j] == id;
                if j < init.len() {
                    assert(ids_of(init)[j] == id);
                }
            }
            assert(ids_of(list)[list.len() - 1] == list.last().id);
        }
    }
}

/// The players listed for a roster are as many as its keys.
pub proof fn lemma_roster_count(players: Seq<Player>, m: Map<PlayerID, Player>)
    requires
        lists_roster(players, m),
    ensures
        m.dom().finite(),
        m.dom().len() == players.len(),
{
    let ids = ids_of(players);
    assert forall|a: int, b: int| 0 <= a < ids.len() && 0 <= b < ids.len() && a != b implies ids[a]
        != ids[b] by {
        if a < b {
            assert(players[a].id < players[b].id);
        } else {
            assert(players[b].id < players[a].id);
        }
    }
    ids.unique_seq_to_set();
    assert(ids.to_set() =~= m.dom());
}

/// How the turn may move on in one step from `before` to `after`: either the turn order stays,
/// and play stays where it is or passes from inserting to moving; or the active player, having
/// moved, goes to the back of the turn order and the next player inserts.
pub open spec fn turn_step(before: &BoardController, after: &BoardController) -> bool {
    ||| after.turn_order@ == before.turn_order@ && (after.turn_state == before.turn_state || (
        before.turn_state == TurnState::InsertTile && after.turn_state == TurnState::MoveToken))
    ||| before.turn_state == TurnState::MoveToken && after.turn_state == TurnState::InsertTile
        && after.turn_order@ == rotated(before.turn_order@)
}

/// Whatever input `event` handles, the turn moves on only as `turn_step` allows: nobody but the
/// active player acts, a turn is an insert followed by a move, and after the move the next
/// player in the turn order is up.
pub proof fn lemma_event_turn_step(
    before: &BoardController,
    mid: &BoardController,
    after: &BoardController,
    input: BoardInput,
    local_id: PlayerID,
    r: (bool, Option<AnimSync>),
)
    requires
        before.wf(),
        before.input_effect(mid, input, local_id, r),
        mid.tutorial_effect(after, r.0),
    ensures
        turn_step(before, after),
{
}

/// Passing the turn `k` times (up to once round the table) moves the first `k` entries of the
/// turn order to the back, in order; so after `k` turns the `k`-th player moves, and after as
/// many turns as there are entries the turn order is back where it started.
pub proof fn lemma_turns_go_round<A>(s: Seq<A>, k: nat)
    requires
        k <= s.len(),
    ensures
        rotated_times(s, k) == s.subrange(k as int, s.len() as int) + s.subrange(0, k as int),
        k < s.len() ==> rotated_times(s, k)[0] == s[k as int],
        k == s.len() ==> rotated_times(s, k) == s,
    decreases k,
{
    if k > 0 {
        lemma_turns_go_round(s, (k - 1) as nat);
        let prev = rotated_times(s, (k - 1) as nat);
        assert(prev.len() == s.len());
        assert(rotated(prev) =~= s.subrange(k as int, s.len() as int) + s.subrange(0, k as int));
    } else {
        assert(s.subrange(0, s.len() as int) + s.subrange(0, 0) =~= s);
    }
    if k == s.len() {
        assert(s.subrange(k as int, s.len() as int) + s.subrange(0, k as int) =~= s);
    }
}

/// When it is the local player's turn (the active player lives with them), the active player is
/// the one living there who moves soonest, so `effective_local_id` names them.
pub proof fn lemma_local_turn_effective(c: &BoardController, local_id: PlayerID)
    requires
        c.wf(),
        c.local_turn_spec(local_id),
    ensures
        c.first_local(local_id, 0),
        forall|i: int| #[trigger] c.first_local(local_id, i) ==> i == 0,
{
    assert forall|i: int| #[trigger] c.first_local(local_id, i) implies i == 0 by {
        if i > 0 {
            assert(!c.player_of(c.turn_order@[0]).lives_with_spec(local_id));
        }
    }
}

/// A copy of a list of players.
pub fn copy_players(v: &Vec<Player>) -> (r: Vec<Player>)
    ensures
        r@ == v@,
{
    let mut r: Vec<Player> = Vec::new();
    let mut k: usize = 0;
    while k < v.len()
        invariant
            k <= v@.len(),
            r@ == v@.subrange(0, k as int),
        decreases v@.len() - k,
    {
        r.push(v[k].clone());
        proof {
            assert(v@.subrange(0, k + 1) =~= v@.subrange(0, k as int).push(v@[k as int]));
        }
        k = k + 1;
    }
    proof {
        assert(v@.subrange(0, v@.len() as int) =~= v@);
    }
    r
}

impl Clone for BoardController {
    fn clone(&self) -> (r: Self)
        ensures
            r.same_controller(self),
    {
        BoardController {
            board: self.board.clone(),
            highlighted_tile: self.highlighted_tile,
            players: copy_players(&self.players),
            host_id: self.host_id,
            turn_order: crate::board::copy_vec(&self.turn_order),
            turn_state: self.turn_state,
            settings: self.settings,
        }
    }
}

/// Whether the numbers increase strictly along `ids`.
fn increasing(ids: &Vec<u64>) -> (r: bool)
    ensures
        r == (forall|i: int, j: int| 0 <= i < j < ids@.len() ==> ids@[i] < ids@[j]),
{
    if ids.len() == 0 {
        return true;
    }
    let mut k: usize = 1;
    while k < ids.len()
        invariant
            1 <= k <= ids@.len(),
            forall|i: int, j: int| 0 <= i < j < k ==> ids@[i] < ids@[j],
        decreases ids@.len() - k,
    {
        if ids[k - 1] >= ids[k] {
            assert(!(ids@[k - 1] < ids@[k as int]));
            return false;
        }
        proof {
            assert forall|i: int, j: int| 0 <= i < j < k + 1 implies ids@[i] < ids@[j] by {
                if j == k && i < k - 1 {
                    assert(ids@[i] < ids@[k - 1]);
                }
            }
        }
        k = k + 1;
    }
    true
}

/// Whether `v` lists `p`.
fn contains_coord(v: &Vec<(usize, usize)>, p: (usize, usize)) -> (r: bool)
    ensures
        r == v@.contains(p),
{
    let mut k: usize = 0;
    while k < v.len()
        invariant
            k <= v@.len(),
            forall|m: int| 0 <= m < k ==> v@[m] != p,
        decreases v@.len() - k,
    {
        if v[k].0 == p.0 && v[k].1 == p.1 {
            assert(v@[k as int] == p);
            return true;
        }
        k = k + 1;
    }
    false
}

impl BoardController {
    /// The two controllers hold the same board, highlight, players, host, turn order, turn
    /// state and settings.
    pub open spec fn same_controller(&self, other: &BoardController) -> bool {
        &&& self.board.same_board(&other.board)
        &&& self.highlighted_tile == other.highlighted_tile
        &&& self.players@ == other.players@
        &&& self.host_id == other.host_id
        &&& self.turn_order@ == other.turn_order@
        &&& self.turn_state == other.turn_state
        &&& self.settings == other.settings
    }

    /// Whether a player with the given ID takes part.
    pub open spec fn has_player(&self, id: PlayerID) -> bool {
        exists|j: int| 0 <= j < self.players@.len() && self.players@[j].id == id
    }

    /// The index of the player with the given ID.
    pub open spec fn player_index_spec(&self, id: PlayerID) -> int {
        choose|j: int| 0 <= j < self.players@.len() && self.players@[j].id == id
    }

    /// The player with the given ID.
    pub open spec fn player_of(&self, id: PlayerID) -> Player {
        self.players@[self.player_index_spec(id)]
    }

    /// The board is well formed; players are listed by increasing ID, each with a token (in
    /// the same order); the turn order is not empty and lists players who take part.
    pub open spec fn wf(&self) -> bool {
        &&& self.board.wf()
        &&& players_sorted(self.players@)
        &&& token_ids(self.board.player_tokens@) == ids_of(self.players@)
        &&& self.turn_order@.len() > 0
        &&& forall|i: int|
            0 <= i < self.turn_order@.len() ==> self.has_player(#[trigger] self.turn_order@[i])
    }

    /// The ID of the player whose turn it is.
    pub open spec fn active_id(&self) -> PlayerID {
        self.turn_order@[0]
    }

    /// Whether the player whose turn it is lives with `local_id` (is it, or is its child).
    pub open spec fn local_turn_spec(&self, local_id: PlayerID) -> bool {
        self.player_of(self.active_id()).lives_with_spec(local_id)
    }

    /// Whether some player has reached the score limit.
    pub open spec fn has_winner(&self) -> bool {
        exists|i: int|
            0 <= i < self.board.player_tokens@.len() && #[trigger] self.board.player_tokens@[i].score
                >= self.settings.score_limit
    }

    /// With well-formed state, a player who takes part sits at one index, and their token sits
    /// at the same index of the board's tokens.
    pub proof fn lemma_player_token(&self, id: PlayerID)
        requires
            self.wf(),
            self.has_player(id),
        ensures
            0 <= self.player_index_spec(id) < self.players@.len(),
            self.player_of(id).id == id,
            self.board.has_token(id),
            self.board.token_index_spec(id) == self.player_index_spec(id),
            forall|j: int|
                0 <= j < self.players@.len() && self.players@[j].id == id ==> j
                    == self.player_index_spec(id),
    {
        let j = self.player_index_spec(id);
        assert(0 <= j < self.players@.len() && self.players@[j].id == id);
        assert(token_ids(self.board.player_tokens@).len() == self.board.player_tokens@.len());
        assert(ids_of(self.players@).len() == self.players@.len());
        assert(token_ids(self.board.player_tokens@)[j] == ids_of(self.players@)[j]);
        self.board.lemma_token_index_unique(id, j);
        assert forall|k: int| 0 <= k < self.players@.len() && self.players@[k].id == id implies k
            == j by {
            if k < j {
                assert(self.players@[k].id < self.players@[j].id);
            } else if j < k {
                assert(self.players@[j].id < self.players@[k].id);
            }
        }
    }

    /// The index of the player with the given ID, if there is one.
    pub fn player_index(&self, id: PlayerID) -> (r: Option<usize>)
        requires
            self.wf(),
        ensures
            match r {
                Some(j) => self.has_player(id) && j == self.player_index_spec(id),
                None => !self.has_player(id),
            },
    {
        let mut k: usize = 0;
        while k < self.players.len()
            invariant
                self.wf(),
                k <= self.players@.len(),
                forall|m: int| 0 <= m < k ==> self.players@[m].id != id,
            decreases self.players@.len() - k,
        {
            if self.players[k].id == id {
                proof {
                    self.lemma_player_token(id);
                }
                return Some(k);
            }
            k = k + 1;
        }
        None
    }

    /// Gets the ID of the player whose turn it is
    pub fn active_player_id(&self) -> (r: PlayerID)
        requires
            self.wf(),
        ensures
            r == self.active_id(),
    {
        self.turn_order[0]
    }

    /// Gets the player whose turn it is
    pub fn active_player(&self) -> (r: &Player)
        requires
            self.wf(),
        ensures
            *r == self.player_of(self.active_id()),
    {
        let id = self.active_player_id();
        proof {
            assert(self.has_player(self.turn_order@[0]));
        }
        match self.player_index(id) {
            Some(j) => &self.players[j],
            None => {
                proof {
                    assert(false);
                }
                &self.players[0]
            },
        }
    }

    /// Checks if the player whose turn it is lives with this player (equal to or child of)
    pub fn local_turn(&self, local_id: PlayerID) -> (r: bool)
        requires
            self.wf(),
        ensures
            r == self.local_turn_spec(local_id),
    {
        let active_player = self.active_player();
        let my_turn = active_player.id == local_id;
        let child_turn = match active_player.parent {
            Some(p) => p == local_id,
            None => false,
        };
        my_turn || child_turn
    }

    /// Whether the `i`-th entry of the turn order is the first whose player lives with
    /// `local_id`.
    pub open spec fn first_local(&self, local_id: PlayerID, i: int) -> bool {
        &&& 0 <= i < self.turn_order@.len()
        &&& self.player_of(self.turn_order@[i]).lives_with_spec(local_id)
        &&& forall|j: int|
            0 <= j < i ==> !(#[trigger] self.player_of(self.turn_order@[j])).lives_with_spec(
                local_id,
            )
    }

    /// Gets the effective local ID: the player living here (`local_id` or one of its children)
    /// who will be moving soonest, or `local_id` itself if none is in the turn order.
    pub fn effective_local_id(&self, local_id: PlayerID) -> (r: PlayerID)
        requires
            self.wf(),
        ensures
            (exists|i: int| #[trigger] self.first_local(local_id, i) && r == self.turn_order@[i])
                || (r == local_id && forall|i: int|
                0 <= i < self.turn_order@.len() ==> !(#[trigger] self.player_of(
                    self.turn_order@[i],
                )).lives_with_spec(local_id)),
    {
        let mut k: usize = 0;
        while k < self.turn_order.len()
            invariant
                self.wf(),
                k <= self.turn_order@.len(),
                forall|j: int|
                    0 <= j < k ==> !(#[trigger] self.player_of(self.turn_order@[j])).lives_with_spec(
                        local_id,
                    ),
            decreases self.turn_order@.len() - k,
        {
            let id = self.turn_order[k];
            proof {
                assert(self.has_player(self.turn_order@[k as int]));
            }
            match self.player_index(id) {
                Some(j) => {
                    let player = &self.players[j];
                    if player.lives_with(local_id) {
                        proof {
                            self.lemma_player_token(id);
                            assert(self.first_local(local_id, k as int));
                        }
                        return player.id;
                    }
                },
                None => {
                    proof {
                        assert(false);
                    }
                },
            }
            k = k + 1;
        }
        local_id
    }

    /// Gets the player who reached the score limit first (in order of player ID), if any
    pub fn winner(&self) -> (r: Option<&Player>)
        requires
            self.wf(),
        ensures
            match r {
                Some(p) => exists|i: int|
                    first_scorer(self.board.player_tokens@, self.settings.score_limit, i) && *p
                        == #[trigger] self.players@[i],
                None => !self.has_winner(),
            },
    {
        let mut k: usize = 0;
        while k < self.board.player_tokens.len()
            invariant
                self.wf(),
                k <= self.board.player_tokens@.len(),
                forall|j: int|
                    0 <= j < k ==> (#[trigger] self.board.player_tokens@[j]).score
                        < self.settings.score_limit,
            decreases self.board.player_tokens@.len() - k,
        {
            if self.board.player_tokens[k].score >= self.settings.score_limit {
                proof {
                    assert(first_scorer(
                        self.board.player_tokens@,
                        self.settings.score_limit,
                        k as int,
                    ));
                    assert(token_ids(self.board.player_tokens@).len() == ids_of(
                        self.players@,
                    ).len());
                }
                return Some(&self.players[k]);
            }
            k = k + 1;
        }
        None
    }

    /// Puts the loose tile at the given insert guide; returns whether it moved.
    pub fn move_loose_tile(&mut self, new_loose_tile_position: (Direction, usize)) -> (r: bool)
        ensures
            *final(self) == (BoardController {
                board: Board { loose_tile_position: new_loose_tile_position, ..old(self).board },
                ..*old(self)
            }),
            r == (old(self).board.loose_tile_position != new_loose_tile_position),
    {
        let old_loose_tile_position = self.board.loose_tile_position;
        self.board.loose_tile_position = new_loose_tile_position;
        old_loose_tile_position.0 != new_loose_tile_position.0 || old_loose_tile_position.1
            != new_loose_tile_position.1
    }

    /// Turns the loose tile a quarter clockwise or counterclockwise; returns the animation to
    /// start.
    pub fn rotate_loose_tile(&mut self, dir: RotateDir) -> (r: AnimSync)
        ensures
            *final(self) == (BoardController {
                board: Board {
                    loose_tile: crate::tile::Tile {
                        orientation: (match dir {
                            RotateDir::CW => Direction::East,
                            RotateDir::CCW => Direction::West,
                        }).composed(old(self).board.loose_tile.orientation),
                        ..old(self).board.loose_tile
                    },
                    ..old(self).board
                },
                ..*old(self)
            }),
            r == AnimSync::Rotate(dir),
    {
        self.board.loose_tile.rotate_by(
            match dir {
                RotateDir::CW => Direction::East,
                RotateDir::CCW => Direction::West,
            },
        );
        AnimSync::Rotate(dir)
    }

    /// Moves the highlighted tile one step in the given direction, stopping at the edges;
    /// returns whether it moved.
    pub fn handle_move_key_direction(&mut self, direction: Direction) -> (r: bool)
        requires
            old(self).board.rectangular(),
            highlight_step_defined(direction, old(self).highlighted_tile),
        ensures
            *final(self) == (BoardController {
                highlighted_tile: moved_highlight(
                    direction,
                    old(self).highlighted_tile,
                    old(self).board.width_spec(),
                    old(self).board.height_spec(),
                ),
                ..*old(self)
            }),
            r == (final(self).highlighted_tile != old(self).highlighted_tile),
    {
        let orig_highlight = self.highlighted_tile;
        let (row, col) = orig_highlight;
        let height = self.board.height();
        let width = self.board.width();
        let new_highlight = match direction {
            Direction::North => (row.saturating_sub(1), col),
            Direction::South => {
                let next = row + 1;
                (if next < height - 1 { next } else { height - 1 }, col)
            },
            Direction::East => {
                let next = col + 1;
                (row, if next < width - 1 { next } else { width - 1 })
            },
            Direction::West => (row, col.saturating_sub(1)),
        };
        self.highlighted_tile = new_highlight;
        orig_highlight.0 != new_highlight.0 || orig_highlight.1 != new_highlight.1
    }

    /// Moves the loose tile to a neighbouring insert guide with an arrow key (see
    /// `insert_key_move`); returns whether it moved.
    pub fn handle_insert_key_direction(&mut self, move_dir: Direction) -> (r: bool)
        requires
            old(self).board.rectangular(),
            insert_key_move(
                move_dir,
                old(self).board.loose_tile_position,
                old(self).board.width_spec() / 2,
                old(self).board.height_spec() / 2,
            ) is Some,
        ensures
            ({
                let np = insert_key_move(
                    move_dir,
                    old(self).board.loose_tile_position,
                    old(self).board.width_spec() / 2,
                    old(self).board.height_spec() / 2,
                )->0;
                &&& *final(self) == (BoardController {
                    board: Board { loose_tile_position: np, ..old(self).board },
                    ..*old(self)
                })
                &&& r == (np != old(self).board.loose_tile_position)
            }),
    {
        let guides_x = self.board.width() / 2;
        let guides_y = self.board.height() / 2;
        match insert_key_target(move_dir, self.board.loose_tile_position, guides_x, guides_y) {
            Some(new_loose_tile_position) => self.move_loose_tile(new_loose_tile_position),
            None => {
                proof {
                    assert(false);
                }
                false
            },
        }
    }
    /// The active player can try to move to `pos` without fault: their token is on the board,
    /// and if `pos` can be walked to and holds their target, their score can grow and some
    /// other untargeted cell can take their next target.
    pub open spec fn move_ok(&self, pos: (usize, usize)) -> bool {
        let id = self.active_id();
        let b = self.board;
        let from = b.token_of(id).position;
        &&& b.in_bounds(from)
        &&& (b.reachable(from, pos) && b.cell(pos).whose_target == Some(id)) ==> {
            &&& b.token_of(id).score < 255
            &&& exists|q: (usize, usize)| #[trigger] b.target_free(pos, q)
        }
    }

    /// `after` is this state once the active player tried to move to `pos`, and `moved` tells
    /// whether they did. They move if `pos` can be walked to from their token; on their target,
    /// their score grows by one, the target mark there is removed and a new target is drawn
    /// from `target_choices` of `pos`; the turn passes to the next player in the turn order,
    /// who must now insert, and the highlight jumps to that player's token. Otherwise nothing
    /// changes.
    pub open spec fn move_effect(&self, after: &BoardController, pos: (usize, usize), moved: bool) -> bool {
        let id = self.active_id();
        let b = self.board;
        let tok = b.token_of(id);
        let i = b.token_index_spec(id);
        if b.reachable(tok.position, pos) {
            &&& moved
            &&& after.players == self.players
            &&& after.host_id == self.host_id
            &&& after.settings == self.settings
            &&& after.turn_state == TurnState::InsertTile
            &&& after.turn_order@ == rotated(self.turn_order@)
            &&& after.board.loose_tile == b.loose_tile
            &&& after.board.loose_tile_position == b.loose_tile_position
            &&& after.board.tutorial_step == b.tutorial_step
            &&& if b.cell(pos).whose_target == Some(id) {
                &&& after.board.player_tokens@ == b.player_tokens@.update(
                    i,
                    PlayerToken { position: pos, score: (tok.score + 1) as u8, ..tok },
                )
                &&& exists|q: (usize, usize)|
                    #[trigger] b.target_choices(pos).contains(q) && after.board.grid()
                        == with_target(with_target(b.grid(), pos, None), q, Some(id))
            } else {
                &&& after.board.player_tokens@ == b.player_tokens@.update(
                    i,
                    PlayerToken { position: pos, ..tok },
                )
                &&& after.board.grid() == b.grid()
            }
            &&& after.highlighted_tile == after.board.token_of(after.turn_order@[0]).position
        } else {
            &&& !moved
            &&& *after == *self
        }
    }

    /// Passes the turn to the next player in the turn order (the active player goes to the
    /// back) and highlights the new active player's token.
    pub fn rotate_turn_order(&mut self)
        requires
            old(self).wf(),
        ensures
            final(self).wf(),
            final(self).turn_order@ == rotated(old(self).turn_order@),
            final(self).highlighted_tile == final(self).board.token_of(
                final(self).turn_order@[0],
            ).position,
            *final(self) == (BoardController {
                turn_order: final(self).turn_order,
                highlighted_tile: final(self).highlighted_tile,
                ..*old(self)
            }),
    {
        let ghost t0 = self.turn_order@;
        let first = self.turn_order.remove(0);
        self.turn_order.push(first);
        proof {
            assert(self.turn_order@ =~= rotated(t0));
            assert forall|i: int| 0 <= i < self.turn_order@.len() implies self.has_player(
                #[trigger] self.turn_order@[i],
            ) by {
                if i < t0.len() - 1 {
                    assert(self.turn_order@[i] == t0[i + 1]);
                } else {
                    assert(self.turn_order@[i] == t0[0]);
                }
            }
        }
        let id = self.turn_order[0];
        proof {
            self.lemma_player_token(id);
        }
        self.highlighted_tile = self.board.player_pos(id);
    }

    /// Moves the active player to `pos` if it can be walked to from their token, crediting a
    /// reached target and passing the turn (see `move_effect`); returns whether they moved.
    pub fn attempt_move(&mut self, pos: (usize, usize)) -> (r: bool)
        requires
            old(self).wf(),
            old(self).move_ok(pos),
        ensures
            final(self).wf(),
            old(self).move_effect(final(self), pos, r),
    {
        let (row, col) = pos;
        let id = self.active_player_id();
        proof {
            assert(self.has_player(self.turn_order@[0]));
            self.lemma_player_token(id);
        }
        let from = self.board.player_pos(id);
        let reachable = self.board.reachable_coords(from);
        let width = self.board.width();
        let height = self.board.height();
        if contains_coord(&reachable, pos) {
            let ghost b0 = self.board;
            let ghost c0 = *self;
            proof {
                assert(reachable@.to_set().contains(pos));
                assert(b0.reachable(from, pos));
                assert(width == b0.width_spec() && height == b0.height_spec());
                b0.lemma_reachable_in_bounds(from, pos);
            }
            self.board.move_player(id, pos);
            proof {
                assert(self.board.cells@.len() > 0);
                assert forall|a: int, b: int|
                    0 <= a < b < self.board.player_tokens@.len() implies #[trigger] self.board.player_tokens@[a].player_id
                    < #[trigger] self.board.player_tokens@[b].player_id by {
                    assert(b0.player_tokens@[a].player_id < b0.player_tokens@[b].player_id);
                }
                assert(token_ids(self.board.player_tokens@) =~= token_ids(b0.player_tokens@));
                self.lemma_player_token(id);
                assert(self.board.token_of(id).position == pos);
            }
            let target_here = match self.board.get([col, row]).whose_target {
                Some(w) => w == id,
                None => false,
            };
            if target_here {
                proof {
                    b0.lemma_same_tiles_same_choices(&self.board, pos);
                    let q = choose|q: (usize, usize)| #[trigger] b0.target_free(pos, q);
                    assert(self.board.target_free(self.board.token_of(id).position, q));
                }
                let ghost moved = self.board;
                self.board.player_reached_target(id);
                proof {
                    let i = b0.token_index_spec(id);
                    let tok = b0.token_of(id);
                    assert(moved.token_index_spec(id) == i);
                    assert(moved.token_of(id) == PlayerToken { position: pos, ..tok });
                    assert(self.board.player_tokens@ =~= b0.player_tokens@.update(
                        i,
                        PlayerToken { position: pos, score: (tok.score + 1) as u8, ..tok },
                    ));
                    assert(token_ids(self.board.player_tokens@) =~= token_ids(b0.player_tokens@));
                    assert(moved.grid() == b0.grid());
                    let q = choose|q: (usize, usize)|
                        #[trigger] moved.target_choices(pos).contains(q) && self.board.grid()
                            == with_target(with_target(moved.grid(), pos, None), q, Some(id));
                    assert(b0.target_choices(pos).contains(q));
                }
            } else {
                proof {
                    assert(self.board.grid() == b0.grid());
                }
            }
            let ghost c1 = *self;
            self.turn_state = TurnState::InsertTile;
            self.rotate_turn_order();
            proof {
                assert(self.board.grid() == c1.board.grid());
            }
            return true;
        }
        proof {
            assert(!reachable@.to_set().contains(pos));
        }
        false
    }
    /// This state with the loose tile at insert guide `g`.
    pub open spec fn with_loose_position(self, g: (Direction, usize)) -> BoardController {
        BoardController { board: Board { loose_tile_position: g, ..self.board }, ..self }
    }

    /// This state with the given tile highlighted.
    pub open spec fn with_highlight(self, hl: (usize, usize)) -> BoardController {
        BoardController { highlighted_tile: hl, ..self }
    }

    /// This state with the loose tile turned a quarter clockwise or counterclockwise.
    pub open spec fn with_loose_rotated(self, dir: RotateDir) -> BoardController {
        BoardController {
            board: Board {
                loose_tile: crate::tile::Tile {
                    orientation: (match dir {
                        RotateDir::CW => Direction::East,
                        RotateDir::CCW => Direction::West,
                    }).composed(self.board.loose_tile.orientation),
                    ..self.board.loose_tile
                },
                ..self.board
            },
            ..self
        }
    }

    /// The loose tile can be inserted without fault: its insert guide leads onto the board and
    /// the tokens it pushes stay within the range of `usize`.
    pub open spec fn insert_ready(&self) -> bool {
        self.board.loose_position_valid() && self.board.insert_defined()
    }

    /// `after` is this state with the loose tile inserted (see `Board::insert_effect`), `sync`
    /// its animation, and the active player now moving their token.
    pub open spec fn insert_done(&self, after: &BoardController, sync: AnimSync) -> bool {
        &&& self.board.insert_effect(&after.board, sync)
        &&& *after == (BoardController {
            board: after.board,
            turn_state: TurnState::MoveToken,
            ..*self
        })
    }

    /// Inserts the loose tile; the active player then moves their token. Returns the animation
    /// to start.
    pub fn insert_loose_tile(&mut self) -> (r: AnimSync)
        requires
            old(self).wf(),
            old(self).insert_ready(),
        ensures
            final(self).wf(),
            old(self).insert_done(final(self), r),
    {
        let ghost t0 = self.board.player_tokens@;
        let sync = self.board.insert_loose_tile();
        self.turn_state = TurnState::MoveToken;
        proof {
            assert(token_ids(self.board.player_tokens@) =~= token_ids(t0));
        }
        sync
    }

    /// Handling `input` for local player `local_id` involves no fault: if it is their turn, a
    /// pressed arrow key moves the loose tile or the highlight within the range of `usize`, an
    /// insert finds the loose tile ready (`insert_ready`), and a move satisfies `move_ok`.
    pub open spec fn input_ok(&self, input: BoardInput, local_id: PlayerID) -> bool {
        self.local_turn_spec(local_id) ==> match input {
            BoardInput::CursorMoved { .. } => true,
            BoardInput::KeyPressed(key) => match self.turn_state {
                TurnState::InsertTile => match key_direction(key) {
                    Some(d) => insert_key_move(
                        d,
                        self.board.loose_tile_position,
                        self.board.width_spec() / 2,
                        self.board.height_spec() / 2,
                    ) is Some,
                    None => key == BoardKey::Space ==> self.insert_ready(),
                },
                TurnState::MoveToken => match key_direction(key) {
                    Some(d) => highlight_step_defined(d, self.highlighted_tile),
                    None => key == BoardKey::Space ==> self.move_ok(self.highlighted_tile),
                },
            },
            BoardInput::MousePressed { left, on_loose_tile, tile } => if on_loose_tile
                && self.turn_state == TurnState::InsertTile {
                left ==> self.insert_ready()
            } else {
                match tile {
                    Some(pos) => self.turn_state == TurnState::MoveToken ==> self.move_ok(pos),
                    None => true,
                }
            },
        }
    }

    /// `after` and `r` are this state and the result once `input` was handled for local player
    /// `local_id`. Nothing happens unless it is their turn. While inserting: the cursor over an
    /// insert guide puts the loose tile there, the arrow keys move it along the guides
    /// (`insert_key_move`), the shift keys turn it (left counterclockwise, right clockwise),
    /// and space or a left click on the loose tile inserts it, any other click on it turns it
    /// clockwise. While moving: the cursor over a tile highlights it, the arrow keys move the
    /// highlight (`moved_highlight`), and space or a click on a tile tries to move there
    /// (`move_effect`). `r.0` tells whether the state may have changed, `r.1` is the animation
    /// to start.
    pub open spec fn input_effect(
        &self,
        after: &BoardController,
        input: BoardInput,
        local_id: PlayerID,
        r: (bool, Option<AnimSync>),
    ) -> bool {
        let unchanged = *after == *self && r == (false, None::<AnimSync>);
        if !self.local_turn_spec(local_id) {
            unchanged
        } else {
            match input {
                BoardInput::CursorMoved { guide, tile } => r.1 is None && match self.turn_state {
                    TurnState::InsertTile => match guide {
                        Some(g) => *after == self.with_loose_position(g) && r.0 == (g
                            != self.board.loose_tile_position),
                        None => *after == *self && !r.0,
                    },
                    TurnState::MoveToken => {
                        let hl = match tile {
                            Some(t) => t,
                            None => self.highlighted_tile,
                        };
                        *after == self.with_highlight(hl) && r.0 == (hl != self.highlighted_tile)
                    },
                },
                BoardInput::KeyPressed(key) => match self.turn_state {
                    TurnState::InsertTile => match key_direction(key) {
                        Some(d) => {
                            let np = insert_key_move(
                                d,
                                self.board.loose_tile_position,
                                self.board.width_spec() / 2,
                                self.board.height_spec() / 2,
                            )->0;
                            *after == self.with_loose_position(np) && r == (np
                                != self.board.loose_tile_position, None::<AnimSync>)
                        },
                        None => match key {
                            BoardKey::LShift => *after == self.with_loose_rotated(RotateDir::CCW)
                                && r == (true, Some(AnimSync::Rotate(RotateDir::CCW))),
                            BoardKey::RShift => *after == self.with_loose_rotated(RotateDir::CW)
                                && r == (true, Some(AnimSync::Rotate(RotateDir::CW))),
                            BoardKey::Space => r.0 && r.1 is Some && self.insert_done(after, r.1->0),
                            _ => unchanged,
                        },
                    },
                    TurnState::MoveToken => match key_direction(key) {
                        Some(d) => {
                            let hl = moved_highlight(
                                d,
                                self.highlighted_tile,
                                self.board.width_spec(),
                                self.board.height_spec(),
                            );
                            *after == self.with_highlight(hl) && r == (hl != self.highlighted_tile,
                            None::<AnimSync>)
                        },
                        None => if key == BoardKey::Space {
                            r.1 is None && self.move_effect(after, self.highlighted_tile, r.0)
                        } else {
                            unchanged
                        },
                    },
                },
                BoardInput::MousePressed { left, on_loose_tile, tile } => if on_loose_tile
                    && self.turn_state == TurnState::InsertTile {
                    if left {
                        r.0 && r.1 is Some && self.insert_done(after, r.1->0)
                    } else {
                        *after == self.with_loose_rotated(RotateDir::CW) && r == (true, Some(
                            AnimSync::Rotate(RotateDir::CW),
                        ))
                    }
                } else {
                    match tile {
                        Some(pos) => if self.turn_state == TurnState::MoveToken {
                            r.1 is None && self.move_effect(after, pos, r.0)
                        } else {
                            unchanged
                        },
                        None => unchanged,
                    }
                },
            }
        }
    }

    /// Handles an input event for local player `local_id` (see `input_effect`); returns whether
    /// the state may have changed, and the animation to start.
    pub fn handle_input(&mut self, input: BoardInput, local_id: PlayerID) -> (r: (
        bool,
        Option<AnimSync>,
    ))
        requires
            old(self).wf(),
            old(self).input_ok(input, local_id),
        ensures
            final(self).wf(),
            old(self).input_effect(final(self), input, local_id, r),
    {
        // never do anything if this player is not the active player
        if !self.local_turn(local_id) {
            return (false, None);
        }
        let (should_insert, should_move) = match self.turn_state {
            TurnState::InsertTile => (true, false),
            TurnState::MoveToken => (false, true),
        };
        match input {
            BoardInput::CursorMoved { guide, tile } => {
                if should_insert {
                    match guide {
                        Some(new_loose_tile_position) => {
                            let dirty = self.move_loose_tile(new_loose_tile_position);
                            (dirty, None)
                        },
                        None => (false, None),
                    }
                } else {
                    let old_highlighted_tile = self.highlighted_tile;
                    self.highlighted_tile = match tile {
                        Some(t) => t,
                        None => self.highlighted_tile,
                    };
                    let dirty = old_highlighted_tile.0 != self.highlighted_tile.0
                        || old_highlighted_tile.1 != self.highlighted_tile.1;
                    (dirty, None)
                }
            },
            BoardInput::KeyPressed(key) => {
                if should_insert {
                    match arrow_direction(key) {
                        Some(d) => (self.handle_insert_key_direction(d), None),
                        None => match key {
                            BoardKey::LShift => (true, Some(self.rotate_loose_tile(RotateDir::CCW))),
                            BoardKey::RShift => (true, Some(self.rotate_loose_tile(RotateDir::CW))),
                            BoardKey::Space => (true, Some(self.insert_loose_tile())),
                            _ => (false, None),
                        },
                    }
                } else {
                    match arrow_direction(key) {
                        Some(d) => (self.handle_move_key_direction(d), None),
                        None => match key {
                            BoardKey::Space => {
                                let target = self.highlighted_tile;
                                (self.attempt_move(target), None)
                            },
                            _ => (false, None),
                        },
                    }
                }
            },
            BoardInput::MousePressed { left, on_loose_tile, tile } => {
                if on_loose_tile && should_insert {
                    if !left {
                        (true, Some(self.rotate_loose_tile(RotateDir::CW)))
                    } else {
                        (true, Some(self.insert_loose_tile()))
                    }
                } else {
                    match tile {
                        Some(pos) => if should_move {
                            (self.attempt_move(pos), None)
                        } else {
                            (false, None)
                        },
                        None => (false, None),
                    }
                }
            },
        }
    }

    /// `after` is this state once the tutorial moved on, given whether the last input may have
    /// changed the state: in a tutorial step that has a next step, a changed state with a
    /// winner warms the board up for the next step; otherwise nothing changes.
    pub open spec fn tutorial_effect(&self, after: &BoardController, dirty: bool) -> bool {
        match self.board.tutorial_step {
            Some(step) => if dirty && self.has_winner() && step.next_spec() is Some {
                &&& step.next_spec()->0.applied(&self.board, &after.board)
                &&& *after == (BoardController { board: after.board, ..*self })
            } else {
                *after == *self
            },
            None => *after == *self,
        }
    }

    /// In a tutorial, moves on to the next step once someone won (see `tutorial_effect`).
    pub fn advance_tutorial(&mut self, dirty: bool)
        requires
            old(self).wf(),
        ensures
            final(self).wf(),
            old(self).tutorial_effect(final(self), dirty),
    {
        match self.board.tutorial_step {
            Some(tutorial_step) => {
                if dirty && self.winner().is_some() {
                    match tutorial_step.next() {
                        Some(next_step) => {
                            let ghost t0 = self.board.player_tokens@;
                            proof {
                                assert(self.has_player(self.turn_order@[0]));
                                self.lemma_player_token(self.turn_order@[0]);
                            }
                            next_step.apply(&mut self.board);
                            proof {
                                assert(token_ids(self.board.player_tokens@) =~= token_ids(t0));
                            }
                        },
                        None => {},
                    }
                }
            },
            None => {},
        }
    }

    /// Handles an input event for local player `local_id`, then moves the tutorial on if
    /// someone won; returns whether the state may have changed, and the animation to start.
    pub fn event(&mut self, input: BoardInput, local_id: PlayerID) -> (r: (bool, Option<AnimSync>))
        requires
            old(self).wf(),
            old(self).input_ok(input, local_id),
        ensures
            final(self).wf(),
            exists|mid: BoardController|
                #[trigger] old(self).input_effect(&mid, input, local_id, r) && mid.tutorial_effect(
                    final(self),
                    r.0,
                ),
            turn_step(old(self), final(self)),
    {
        let r = self.handle_input(input, local_id);
        let ghost mid = *self;
        self.advance_tutorial(r.0);
        proof {
            assert(old(self).input_effect(&mid, input, local_id, r));
            lemma_event_turn_step(old(self), &mid, self, input, local_id, r);
        }
        r
    }
    /// Whether the loose tile can be inserted without fault (see `insert_ready`).
    pub fn can_insert(&self) -> (r: bool)
        requires
            self.wf(),
        ensures
            r == self.insert_ready(),
    {
        let width = self.board.width();
        let height = self.board.height();
        let (edge, guide) = self.board.loose_tile_position;
        let valid = match edge {
            Direction::North | Direction::South => guide < width / 2,
            Direction::East | Direction::West => guide < height / 2,
        };
        if !valid {
            return false;
        }
        let t = 2 * guide + 1;
        let move_dir = edge.compose(Direction::South);
        let mut k: usize = 0;
        while k < self.board.player_tokens.len()
            invariant
                self.wf(),
                width == self.board.width_spec(),
                height == self.board.height_spec(),
                t == crate::board::guide_line(self.board.loose_tile_position.1),
                move_dir == self.board.loose_tile_position.0.opposite(),
                k <= self.board.player_tokens@.len(),
                forall|j: int|
                    0 <= j < k ==> crate::board::token_shift_defined(
                        #[trigger] self.board.player_tokens@[j].position,
                        move_dir,
                        t as int,
                        width as int,
                        height as int,
                    ),
            decreases self.board.player_tokens@.len() - k,
        {
            let pos = self.board.player_tokens[k].position;
            let line = match move_dir {
                Direction::North | Direction::South => pos.1,
                Direction::East | Direction::West => pos.0,
            };
            let fits = match move_dir {
                Direction::North => pos.0 > 0,
                Direction::South => pos.0 < height && pos.0 + 1 < height,
                Direction::West => pos.1 > 0,
                Direction::East => pos.1 < width && pos.1 + 1 < width,
            };
            let room = match move_dir {
                Direction::East => pos.1 < usize::MAX - width,
                Direction::West => pos.1 <= usize::MAX - width,
                Direction::South => pos.0 < usize::MAX - height,
                Direction::North => pos.0 <= usize::MAX - height,
            };
            if !(line != t || fits || room) {
                return false;
            }
            k = k + 1;
        }
        true
    }

    /// Whether the active player can try to move to `pos` without fault (see `move_ok`).
    pub fn can_move_to(&self, pos: (usize, usize)) -> (r: bool)
        requires
            self.wf(),
        ensures
            r == self.move_ok(pos),
    {
        let id = self.active_player_id();
        proof {
            assert(self.has_player(self.turn_order@[0]));
            self.lemma_player_token(id);
        }
        let from = self.board.player_pos(id);
        let width = self.board.width();
        let height = self.board.height();
        if !(from.0 < height && from.1 < width) {
            return false;
        }
        let reachable = self.board.reachable_coords(from);
        if !contains_coord(&reachable, pos) {
            proof {
                assert(!reachable@.to_set().contains(pos));
            }
            return true;
        }
        proof {
            assert(reachable@.to_set().contains(pos));
            self.board.lemma_reachable_in_bounds(from, pos);
        }
        let target_here = match self.board.get([pos.1, pos.0]).whose_target {
            Some(w) => w == id,
            None => false,
        };
        if !target_here {
            return true;
        }
        let i = match self.board.token_index(id) {
            Some(i) => i,
            None => {
                proof {
                    assert(false);
                }
                return false;
            },
        };
        let free = self.board.free_cells(pos);
        proof {
            if free@.len() > 0 {
                assert(free@.to_set().contains(free@[0]));
            }
            if exists|q: (usize, usize)| #[trigger] self.board.target_free(pos, q) {
                let q = choose|q: (usize, usize)| #[trigger] self.board.target_free(pos, q);
                assert(self.board.free_targets(pos).contains(q));
                assert(free@.to_set().contains(q));
            }
        }
        self.board.player_tokens[i].score < 255 && free.len() > 0
    }

    /// Whether handling `input` for local player `local_id` involves no fault (see `input_ok`).
    pub fn can_handle(&self, input: BoardInput, local_id: PlayerID) -> (r: bool)
        requires
            self.wf(),
        ensures
            r == self.input_ok(input, local_id),
    {
        if !self.local_turn(local_id) {
            return true;
        }
        match input {
            BoardInput::CursorMoved { .. } => true,
            BoardInput::KeyPressed(key) => match self.turn_state {
                TurnState::InsertTile => match arrow_direction(key) {
                    Some(d) => {
                        let guides_x = self.board.width() / 2;
                        let guides_y = self.board.height() / 2;
                        insert_key_target(d, self.board.loose_tile_position, guides_x, guides_y).is_some()
                    },
                    None => match key {
                        BoardKey::Space => self.can_insert(),
                        _ => true,
                    },
                },
                TurnState::MoveToken => match arrow_direction(key) {
                    Some(d) => match d {
                        Direction::South => self.highlighted_tile.0 < usize::MAX,
                        Direction::East => self.highlighted_tile.1 < usize::MAX,
                        _ => true,
                    },
                    None => match key {
                        BoardKey::Space => self.can_move_to(self.highlighted_tile),
                        _ => true,
                    },
                },
            },
            BoardInput::MousePressed { left, on_loose_tile, tile } => {
                let inserting = match self.turn_state {
                    TurnState::InsertTile => true,
                    TurnState::MoveToken => false,
                };
                if on_loose_tile && inserting {
                    !left || self.can_insert()
                } else {
                    match tile {
                        Some(pos) => inserting || self.can_move_to(pos),
                        None => true,
                    }
                }
            },
        }
    }
    /// Creates a new board controller with a new board: the players of `player_list`, keyed by
    /// ID (a later entry replacing an earlier one with the same ID), get a fresh board of the
    /// configured size; the turn order is the IDs of `player_list` in random order; the first
    /// player in it must insert, and their token is highlighted. In demonstration mode (`demo`,
    /// see `demo::is_demo`) the board is the demonstration board and the turn order is that of
    /// `player_list`.
    pub fn new(settings: BoardSettings, player_list: Vec<Player>, host_id: PlayerID, demo: bool) -> (r:
        BoardController)
        requires
            player_list@.len() >= 1,
            demo ==> roster(player_list@).dom().len() <= 4,
            !demo ==> settings.width >= 2 && settings.height >= 2 && roster(player_list@).dom().len()
                < settings.width * settings.height,
        ensures
            r.wf(),
            lists_roster(r.players@, roster(player_list@)),
            demo ==> crate::demo::is_demo_board(r.board, r.players@),
            !demo ==> r.board.fresh(settings.width as int, settings.height as int, r.players@),
            demo ==> r.turn_order@ == ids_of(player_list@),
            r.turn_order@.to_multiset() == ids_of(player_list@).to_multiset(),
            r.highlighted_tile == r.board.token_of(r.turn_order@[0]).position,
            r.host_id == host_id,
            r.turn_state == TurnState::InsertTile,
            r.settings == settings,
    {
        let width = settings.width;
        let height = settings.height;
        let mut player_ids: Vec<PlayerID> = Vec::new();
        let mut i: usize = 0;
        while i < player_list.len()
            invariant
                i <= player_list@.len(),
                player_ids@ == ids_of(player_list@.subrange(0, i as int)),
            decreases player_list@.len() - i,
        {
            player_ids.push(player_list[i].id);
            proof {
                assert(ids_of(player_list@.subrange(0, i + 1)) =~= ids_of(
                    player_list@.subrange(0, i as int),
                ).push(player_list@[i as int].id));
            }
            i = i + 1;
        }
        proof {
            assert(player_list@.subrange(0, player_list@.len() as int) =~= player_list@);
        }
        let ghost ids0 = player_ids@;
        if !demo {
            rng::shuffle_ids(&mut player_ids);
        }
        let players = collect_players(&player_list);
        proof {
            lemma_roster_count(players@, roster(player_list@));
            lemma_roster_dom(player_list@);
            assert(ids_of(player_list@)[0] == player_list@[0].id);
            assert(ids_of(player_list@).contains(player_list@[0].id));
            assert(roster(player_list@).dom().contains(player_list@[0].id));
            vstd::set_lib::lemma_set_empty_equivalency_len(roster(player_list@).dom());
        }
        let board = Board::new(width, height, &players, demo);
        let mut r = BoardController {
            board,
            highlighted_tile: (0, 0),
            players,
            host_id,
            turn_order: player_ids,
            turn_state: TurnState::InsertTile,
            settings,
        };
        proof {
            lemma_roster_dom(player_list@);
            assert(token_ids(r.board.player_tokens@) =~= ids_of(r.players@));
            assert forall|i: int| 0 <= i < r.turn_order@.len() implies r.has_player(
                #[trigger] r.turn_order@[i],
            ) by {
                let id = r.turn_order@[i];
                vstd::seq_lib::to_multiset_contains(r.turn_order@, id);
                vstd::seq_lib::to_multiset_contains(ids0, id);
                assert(r.turn_order@.contains(id));
                assert(ids_of(player_list@).contains(id));
                assert(ids_of(r.players@).contains(id));
                let j = choose|j: int| 0 <= j < r.players@.len() && ids_of(r.players@)[j] == id;
                assert(r.players@[j].id == id);
            }
            assert(r.turn_order@.len() == ids0.len()) by {
                vstd::seq_lib::to_multiset_len(r.turn_order@);
                vstd::seq_lib::to_multiset_len(ids0);
            }
            assert(r.has_player(r.turn_order@[0]));
            r.lemma_player_token(r.turn_order@[0]);
        }
        r.highlighted_tile = r.board.player_pos(r.turn_order[0]);
        r
    }
    /// Checks whether the state is well formed (see `wf`), as a state received from another
    /// player must be before it is played on.
    pub fn is_wf(&self) -> (r: bool)
        ensures
            r == self.wf(),
    {
        let h = self.board.cells.len();
        if h == 0 {
            return false;
        }
        let w = self.board.cells[0].len();
        if w == 0 {
            proof {
                assert(self.board.width_spec() == 0);
            }
            return false;
        }
        let mut row: usize = 0;
        while row < h
            invariant
                h == self.board.cells@.len(),
                w == self.board.cells@[0]@.len(),
                row <= h,
                forall|k: int| 0 <= k < row ==> #[trigger] self.board.cells@[k]@.len() == w,
            decreases h - row,
        {
            if self.board.cells[row].len() != w {
                proof {
                    assert(self.board.grid()[row as int].len() != w);
                }
                return false;
            }
            row = row + 1;
        }
        proof {
            assert forall|k: int| 0 <= k < h implies #[trigger] self.board.grid()[k].len() == w by {
                assert(self.board.grid()[k] == self.board.cells@[k]@);
            }
        }
        let mut tokens: Vec<u64> = Vec::new();
        let mut k: usize = 0;
        while k < self.board.player_tokens.len()
            invariant
                k <= self.board.player_tokens@.len(),
                tokens@ == token_ids(self.board.player_tokens@.subrange(0, k as int)),
            decreases self.board.player_tokens@.len() - k,
        {
            tokens.push(self.board.player_tokens[k].player_id);
            proof {
                assert(token_ids(self.board.player_tokens@.subrange(0, k + 1)) =~= token_ids(
                    self.board.player_tokens@.subrange(0, k as int),
                ).push(self.board.player_tokens@[k as int].player_id));
            }
            k = k + 1;
        }
        let mut ids: Vec<u64> = Vec::new();
        let mut k: usize = 0;
        while k < self.players.len()
            invariant
                k <= self.players@.len(),
                ids@ == ids_of(self.players@.subrange(0, k as int)),
            decreases self.players@.len() - k,
        {
            ids.push(self.players[k].id);
            proof {
                assert(ids_of(self.players@.subrange(0, k + 1)) =~= ids_of(
                    self.players@.subrange(0, k as int),
                ).push(self.players@[k as int].id));
            }
            k = k + 1;
        }
        proof {
            assert(self.board.player_tokens@.subrange(0, self.board.player_tokens@.len() as int)
                =~= self.board.player_tokens@);
            assert(self.players@.subrange(0, self.players@.len() as int) =~= self.players@);
        }
        let tokens_ok = increasing(&tokens);
        let players_ok = increasing(&ids);
        if !tokens_ok {
            proof {
                let (i, j) = choose|i: int, j: int|
                    !(0 <= i < j < tokens@.len() ==> tokens@[i] < tokens@[j]);
                assert(!(self.board.player_tokens@[i].player_id < self.board.player_tokens@[j].player_id));
            }
            return false;
        }
        if !players_ok {
            proof {
                let (i, j) = choose|i: int, j: int| !(0 <= i < j < ids@.len() ==> ids@[i] < ids@[j]);
                assert(!(self.players@[i].id < self.players@[j].id));
            }
            return false;
        }
        proof {
            assert forall|i: int, j: int|
                0 <= i < j < self.board.player_tokens@.len() implies #[trigger] self.board.player_tokens@[i].player_id
                < #[trigger] self.board.player_tokens@[j].player_id by {
                assert(tokens@[i] < tokens@[j]);
            }
            assert forall|i: int, j: int|
                0 <= i < j < self.players@.len() implies #[trigger] self.players@[i].id
                < #[trigger] self.players@[j].id by {
                assert(ids@[i] < ids@[j]);
            }
        }
        if tokens.len() != ids.len() {
            return false;
        }
        let mut k: usize = 0;
        while k < tokens.len()
            invariant
                tokens@ == token_ids(self.board.player_tokens@),
                ids@ == ids_of(self.players@),
                tokens@.len() == ids@.len(),
                k <= tokens@.len(),
                forall|m: int| 0 <= m < k ==> tokens@[m] == ids@[m],
            decreases tokens@.len() - k,
        {
            if tokens[k] != ids[k] {
                proof {
                    assert(token_ids(self.board.player_tokens@)[k as int] != ids_of(self.players@)[k as int]);
                }
                return false;
            }
            k = k + 1;
        }
        proof {
            assert(tokens@ =~= ids@);
        }
        if self.turn_order.len() == 0 {
            return false;
        }
        let mut t: usize = 0;
        while t < self.turn_order.len()
            invariant
                ids@ == ids_of(self.players@),
                t <= self.turn_order@.len(),
                forall|m: int| 0 <= m < t ==> self.has_player(#[trigger] self.turn_order@[m]),
            decreases self.turn_order@.len() - t,
        {
            let id = self.turn_order[t];
            let mut found = false;
            let mut j: usize = 0;
            while j < ids.len()
                invariant
                    ids@ == ids_of(self.players@),
                    j <= ids@.len(),
                    found ==> self.has_player(id),
                    !found ==> forall|m: int| 0 <= m < j ==> ids@[m] != id,
                decreases ids@.len() - j,
            {
                if ids[j] == id {
                    proof {
                        assert(self.players@[j as int].id == id);
                    }
                    found = true;
                }
                j = j + 1;
            }
            if !found {
                proof {
                    assert forall|m: int| 0 <= m < self.players@.len() implies self.players@[m].id != id by {
                        assert(ids@[m] == self.players@[m].id);
                    }
                }
                return false;
            }
            t = t + 1;
        }
        true
    }
}

} // verus!
