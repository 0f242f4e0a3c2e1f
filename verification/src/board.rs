//! Board logic: the grid of tiles, sliding the loose tile in, and the player tokens.

use vstd::prelude::*;

use crate::anim::AnimSync;
use crate::player::{Player, PlayerID};
use crate::tile::{move_fits, step, step_defined, step_spec, Direction, Tile};
use crate::tutorial::TutorialStep;

verus! {

/// Information about a player's token on the board
#[derive(Clone, Copy, Debug)]
pub struct PlayerToken {
    /// ID of player the token is for
    pub player_id: PlayerID,
    /// Position of token (row, col)
    pub position: (usize, usize),
    /// Number of targets reached
    pub score: u8,
}

impl PlayerToken {
    /// Create a new token for the given player at the given position
    pub fn new(player: &Player, position: (usize, usize)) -> (r: PlayerToken)
        ensures
            r == (PlayerToken { player_id: player.id, position, score: 0 }),
    {
        PlayerToken { player_id: player.id, position, score: 0 }
    }

    /// Indicate that a player has reached their target
    pub fn reached_target(&mut self)
        requires
            old(self).score < 255,
        ensures
            *final(self) == (PlayerToken { score: (old(self).score + 1) as u8, ..*old(self) }),
    {
        self.score = self.score + 1;
    }
}

/// Whether `g` has `h` rows of `w` tiles each.
pub open spec fn grid_rect(g: Seq<Seq<Tile>>, w: int, h: int) -> bool {
    &&& g.len() == h
    &&& forall|r: int| 0 <= r < h ==> #[trigger] g[r].len() == w
}

/// The tiles of a vector of rows.
pub open spec fn grid_of(cells: Seq<Vec<Tile>>) -> Seq<Seq<Tile>> {
    cells.map_values(|row: Vec<Tile>| row@)
}

/// The row or column that the loose tile enters at insert guide `guide`.
pub open spec fn guide_line(guide: usize) -> int {
    2 * guide + 1
}

/// The tile at `(r, c)` after the loose tile `loose` entered from edge `dir` along line `t`,
/// pushing that row or column one step away from the edge.
pub open spec fn shifted_cell(
    g: Seq<Seq<Tile>>,
    loose: Tile,
    dir: Direction,
    t: int,
    w: int,
    h: int,
    r: int,
    c: int,
) -> Tile {
    match dir {
        Direction::North => if c == t {
            if r == 0 {
                loose
            } else {
                g[r - 1][c]
            }
        } else {
            g[r][c]
        },
        Direction::South => if c == t {
            if r == h - 1 {
                loose
            } else {
                g[r + 1][c]
            }
        } else {
            g[r][c]
        },
        Direction::West => if r == t {
            if c == 0 {
                loose
            } else {
                g[r][c - 1]
            }
        } else {
            g[r][c]
        },
        Direction::East => if r == t {
            if c == w - 1 {
                loose
            } else {
                g[r][c + 1]
            }
        } else {
            g[r][c]
        },
    }
}

/// The whole grid after the loose tile entered from `dir` along line `t`.
pub open spec fn shifted_grid(
    g: Seq<Seq<Tile>>,
    loose: Tile,
    dir: Direction,
    t: int,
    w: int,
    h: int,
) -> Seq<Seq<Tile>> {
    Seq::new(h as nat, |r: int| Seq::new(w as nat, |c: int| shifted_cell(g, loose, dir, t, w, h, r, c)))
}

/// The tile pushed off the far edge when the loose tile enters from `dir` along line `t`.
pub open spec fn pushed_out(g: Seq<Seq<Tile>>, dir: Direction, t: int, w: int, h: int) -> Tile {
    match dir {
        Direction::North => g[h - 1][t],
        Direction::South => g[0][t],
        Direction::West => g[t][w - 1],
        Direction::East => g[t][0],
    }
}

/// Whether moving a token at `pos` along with a push towards `move_dir` on line `t` stays within
/// the range of `usize`.
pub open spec fn token_shift_defined(
    pos: (usize, usize),
    move_dir: Direction,
    t: int,
    w: int,
    h: int,
) -> bool {
    let line = match move_dir {
        Direction::North | Direction::South => pos.1 as int,
        Direction::East | Direction::West => pos.0 as int,
    };
    line != t || move_fits(pos, move_dir, (w as usize, h as usize)) || match move_dir {
        Direction::East => pos.1 + w < usize::MAX,
        Direction::West => pos.1 + w <= usize::MAX,
        Direction::South => pos.0 + h < usize::MAX,
        Direction::North => pos.0 + h <= usize::MAX,
    }
}

/// Where a token at `pos` ends up when line `t` is pushed towards `move_dir`: tokens on that line
/// move along, and a token pushed off the board wraps around to the other end of its line
/// (the row reduced modulo `height`, the column modulo `width`).
pub open spec fn shifted_token_pos(
    pos: (usize, usize),
    move_dir: Direction,
    t: int,
    w: int,
    h: int,
) -> (usize, usize) {
    let line = match move_dir {
        Direction::North | Direction::South => pos.1 as int,
        Direction::East | Direction::West => pos.0 as int,
    };
    if line != t {
        pos
    } else if move_fits(pos, move_dir, (w as usize, h as usize)) {
        step_spec(pos, move_dir)
    } else {
        let moved = match move_dir {
            Direction::East | Direction::West => step_spec((pos.0, (pos.1 + w) as usize), move_dir),
            Direction::North | Direction::South => step_spec(((pos.0 + h) as usize, pos.1), move_dir),
        };
        ((moved.0 % (h as usize)) as usize, (moved.1 % (w as usize)) as usize)
    }
}

/// The token after its line was pushed.
pub open spec fn shifted_token(tok: PlayerToken, move_dir: Direction, t: int, w: int, h: int) -> PlayerToken {
    PlayerToken { position: shifted_token_pos(tok.position, move_dir, t, w, h), ..tok }
}

/// Whether moving from `ind` in `dir` stays on a board of the given `(width, height)`.
pub(crate) fn valid_move(ind: (usize, usize), dir: Direction, dims: (usize, usize)) -> (r: bool)
    requires
        dims.0 >= 1,
        dims.1 >= 1,
    ensures
        r == move_fits(ind, dir, dims),
{
    let (j, i) = ind;
    let (width, height) = dims;
    match dir {
        Direction::North => j > 0,
        Direction::South => j < height - 1,
        Direction::West => i > 0,
        Direction::East => i < width - 1,
    }
}

fn shift_token_pos(pos: (usize, usize), move_dir: Direction, t: usize, width: usize, height: usize) -> (r: (
    usize,
    usize,
))
    requires
        width >= 1,
        height >= 1,
        token_shift_defined(pos, move_dir, t as int, width as int, height as int),
    ensures
        r == shifted_token_pos(pos, move_dir, t as int, width as int, height as int),
{
    let dimensions = (width, height);
    let (old_row, old_col) = pos;
    let should_be_target_idx = match move_dir {
        Direction::North | Direction::South => old_col,
        Direction::East | Direction::West => old_row,
    };
    if should_be_target_idx != t {
        return pos;
    }
    if valid_move(pos, move_dir, dimensions) {
        step(pos, move_dir)
    } else {
        let (new_row, new_col) = match move_dir {
            Direction::East | Direction::West => step((old_row, old_col + width), move_dir),
            Direction::North | Direction::South => step((old_row + height, old_col), move_dir),
        };
        (new_row % height, new_col % width)
    }
}

/// Pushes column `t` one step south, feeding `incoming` in at the top; returns the tile pushed out
/// at the bottom.
fn push_column_south(cells: &mut Vec<Vec<Tile>>, t: usize, incoming: Tile, w: Ghost<int>) -> (out: Tile)
    requires
        grid_rect(grid_of(old(cells)@), w@, old(cells)@.len() as int),
        old(cells)@.len() >= 1,
        t < w@,
    ensures
        grid_of(final(cells)@) == shifted_grid(
            grid_of(old(cells)@),
            incoming,
            Direction::North,
            t as int,
            w@,
            old(cells)@.len() as int,
        ),
        out == pushed_out(
            grid_of(old(cells)@),
            Direction::North,
            t as int,
            w@,
            old(cells)@.len() as int,
        ),
{
    let ghost g0 = grid_of(cells@);
    let h = cells.len();
    assert forall|r: int| 0 <= r < h implies #[trigger] cells@[r]@.len() == w@ by {
        assert(g0[r] == cells@[r]@);
    }
    let out = cells[h - 1][t];
    let mut j = h - 1;
    while j > 0
        invariant
            cells@.len() == h,
            j < h,
            t < w@,
            grid_rect(g0, w@, h as int),
            forall|r: int| 0 <= r < h ==> #[trigger] cells@[r]@.len() == w@,
            forall|r: int, c: int|
                0 <= r < h && 0 <= c < w@ ==> #[trigger] cells@[r]@[c] == if c == t && r > j {
                    g0[r - 1][c]
                } else {
                    g0[r][c]
                },
        decreases j,
    {
        let x = cells[j - 1][t];
        cells[j][t] = x;
        j = j - 1;
    }
    cells[0][t] = incoming;
    proof {
        let g1 = grid_of(cells@);
        let target = shifted_grid(g0, incoming, Direction::North, t as int, w@, h as int);
        assert forall|r: int| 0 <= r < h implies #[trigger] g1[r] =~= target[r] by {
            assert forall|c: int| 0 <= c < w@ implies g1[r][c] == target[r][c] by {
                assert(cells@[r]@[c] == g1[r][c]);
            }
        }
        assert(g1 =~= target);
    }
    out
}

/// Pushes column `t` one step north, feeding `incoming` in at the bottom; returns the tile pushed
/// out at the top.
fn push_column_north(cells: &mut Vec<Vec<Tile>>, t: usize, incoming: Tile, w: Ghost<int>) -> (out: Tile)
    requires
        grid_rect(grid_of(old(cells)@), w@, old(cells)@.len() as int),
        old(cells)@.len() >= 1,
        t < w@,
    ensures
        grid_of(final(cells)@) == shifted_grid(
            grid_of(old(cells)@),
            incoming,
            Direction::South,
            t as int,
            w@,
            old(cells)@.len() as int,
        ),
        out == pushed_out(
            grid_of(old(cells)@),
            Direction::South,
            t as int,
            w@,
            old(cells)@.len() as int,
        ),
{
    let ghost g0 = grid_of(cells@);
    let h = cells.len();
    assert forall|r: int| 0 <= r < h implies #[trigger] cells@[r]@.len() == w@ by {
        assert(g0[r] == cells@[r]@);
    }
    let out = cells[0][t];
    let mut j: usize = 0;
    while j < h - 1
        invariant
            cells@.len() == h,
            h >= 1,
            j <= h - 1,
            t < w@,
            grid_rect(g0, w@, h as int),
            forall|r: int| 0 <= r < h ==> #[trigger] cells@[r]@.len() == w@,
            forall|r: int, c: int|
                0 <= r < h && 0 <= c < w@ ==> #[trigger] cells@[r]@[c] == if c == t && r < j {
                    g0[r + 1][c]
                } else {
                    g0[r][c]
                },
        decreases h - 1 - j,
    {
        let x = cells[j + 1][t];
        cells[j][t] = x;
        j = j + 1;
    }
    cells[h - 1][t] = incoming;
    proof {
        let g1 = grid_of(cells@);
        let target = shifted_grid(g0, incoming, Direction::South, t as int, w@, h as int);
        assert forall|r: int| 0 <= r < h implies #[trigger] g1[r] =~= target[r] by {
            assert forall|c: int| 0 <= c < w@ implies g1[r][c] == target[r][c] by {
                assert(cells@[r]@[c] == g1[r][c]);
            }
        }
        assert(g1 =~= target);
    }
    out
}

/// Pushes row `t` one step east, feeding `incoming` in at the west edge; returns the tile pushed
/// out at the east edge.
fn push_row_east(cells: &mut Vec<Vec<Tile>>, t: usize, incoming: Tile, w: Ghost<int>) -> (out: Tile)
    requires
        grid_rect(grid_of(old(cells)@), w@, old(cells)@.len() as int),
        w@ >= 1,
        t < old(cells)@.len(),
    ensures
        grid_of(final(cells)@) == shifted_grid(
            grid_of(old(cells)@),
            incoming,
            Direction::West,
            t as int,
            w@,
            old(cells)@.len() as int,
        ),
        out == pushed_out(
            grid_of(old(cells)@),
            Direction::West,
            t as int,
            w@,
            old(cells)@.len() as int,
        ),
{
    let ghost g0 = grid_of(cells@);
    let ghost h = cells@.len() as int;
    assert forall|r: int| 0 <= r < h implies #[trigger] cells@[r]@.len() == w@ by {
        assert(g0[r] == cells@[r]@);
    }
    assert(cells@[t as int]@.len() == g0[t as int].len());
    let wl = cells[t].len();
    let out = cells[t][wl - 1];
    let mut i = wl - 1;
    while i > 0
        invariant
            cells@.len() == h,
            wl == w@,
            i < wl,
            t < h,
            grid_rect(g0, w@, h),
            forall|r: int| 0 <= r < h ==> #[trigger] cells@[r]@.len() == w@,
            forall|r: int, c: int|
                0 <= r < h && 0 <= c < w@ ==> #[trigger] cells@[r]@[c] == if r == t && c > i {
                    g0[r][c - 1]
                } else {
                    g0[r][c]
                },
        decreases i,
    {
        let x = cells[t][i - 1];
        cells[t][i] = x;
        i = i - 1;
    }
    cells[t][0] = incoming;
    proof {
        let g1 = grid_of(cells@);
        let target = shifted_grid(g0, incoming, Direction::West, t as int, w@, h);
        assert forall|r: int| 0 <= r < h implies #[trigger] g1[r] =~= target[r] by {
            assert forall|c: int| 0 <= c < w@ implies g1[r][c] == target[r][c] by {
                assert(cells@[r]@[c] == g1[r][c]);
            }
        }
        assert(g1 =~= target);
    }
    out
}

/// Pushes row `t` one step west, feeding `incoming` in at the east edge; returns the tile pushed
/// out at the west edge.
fn push_row_west(cells: &mut Vec<Vec<Tile>>, t: usize, incoming: Tile, w: Ghost<int>) -> (out: Tile)
    requires
        grid_rect(grid_of(old(cells)@), w@, old(cells)@.len() as int),
        w@ >= 1,
        t < old(cells)@.len(),
    ensures
        grid_of(final(cells)@) == shifted_grid(
            grid_of(old(cells)@),
            incoming,
            Direction::East,
            t as int,
            w@,
            old(cells)@.len() as int,
        ),
        out == pushed_out(
            grid_of(old(cells)@),
            Direction::East,
            t as int,
            w@,
            old(cells)@.len() as int,
        ),
{
    let ghost g0 = grid_of(cells@);
    let ghost h = cells@.len() as int;
    assert forall|r: int| 0 <= r < h implies #[trigger] cells@[r]@.len() == w@ by {
        assert(g0[r] == cells@[r]@);
    }
    assert(cells@[t as int]@.len() == g0[t as int].len());
    let wl = cells[t].len();
    let out = cells[t][0];
    let mut i: usize = 0;
    while i < wl - 1
        invariant
            cells@.len() == h,
            wl == w@,
            wl >= 1,
            i <= wl - 1,
            t < h,
            grid_rect(g0, w@, h),
            forall|r: int| 0 <= r < h ==> #[trigger] cells@[r]@.len() == w@,
            forall|r: int, c: int|
                0 <= r < h && 0 <= c < w@ ==> #[trigger] cells@[r]@[c] == if r == t && c < i {
                    g0[r][c + 1]
                } else {
                    g0[r][c]
                },
        decreases wl - 1 - i,
    {
        let x = cells[t][i + 1];
        cells[t][i] = x;
        i = i + 1;
    }
    cells[t][wl - 1] = incoming;
    proof {
        let g1 = grid_of(cells@);
        let target = shifted_grid(g0, incoming, Direction::East, t as int, w@, h);
        assert forall|r: int| 0 <= r < h implies #[trigger] g1[r] =~= target[r] by {
            assert forall|c: int| 0 <= c < w@ implies g1[r][c] == target[r][c] by {
                assert(cells@[r]@[c] == g1[r][c]);
            }
        }
        assert(g1 =~= target);
    }
    out
}

/// Moves every token along with a push of line `t` towards `move_dir`.
fn shift_tokens(tokens: &mut Vec<PlayerToken>, move_dir: Direction, t: usize, width: usize, height: usize)
    requires
        width >= 1,
        height >= 1,
        forall|k: int|
            0 <= k < old(tokens)@.len() ==> token_shift_defined(
                #[trigger] old(tokens)@[k].position,
                move_dir,
                t as int,
                width as int,
                height as int,
            ),
    ensures
        final(tokens)@ == old(tokens)@.map_values(
            |tok: PlayerToken| shifted_token(tok, move_dir, t as int, width as int, height as int),
        ),
{
    let ghost t0 = tokens@;
    let mut k: usize = 0;
    while k < tokens.len()
        invariant
            k <= tokens@.len(),
            tokens@.len() == t0.len(),
            width >= 1,
            height >= 1,
            forall|m: int|
                0 <= m < t0.len() ==> token_shift_defined(
                    #[trigger] t0[m].position,
                    move_dir,
                    t as int,
                    width as int,
                    height as int,
                ),
            forall|m: int|
                0 <= m < t0.len() ==> #[trigger] tokens@[m] == if m < k {
                    shifted_token(t0[m], move_dir, t as int, width as int, height as int)
                } else {
                    t0[m]
                },
        decreases tokens@.len() - k,
    {
        let tok = tokens[k];
        let np = shift_token_pos(tok.position, move_dir, t, width, height);
        tokens.set(k, PlayerToken { position: np, ..tok });
        k = k + 1;
    }
    assert(tokens@ =~= t0.map_values(
        |tok: PlayerToken| shifted_token(tok, move_dir, t as int, width as int, height as int),
    ));
}

/// Inserting the loose tile and then inserting the tile that came out, from the opposite edge
/// along the same line, gives back the board and the loose tile as they were.
pub proof fn lemma_reinsert_restores_grid(
    g: Seq<Seq<Tile>>,
    loose: Tile,
    dir: Direction,
    t: int,
    w: int,
    h: int,
)
    requires
        grid_rect(g, w, h),
        w >= 1,
        h >= 1,
        0 <= t,
        dir == Direction::North || dir == Direction::South ==> t < w,
        dir == Direction::East || dir == Direction::West ==> t < h,
    ensures
        shifted_grid(
            shifted_grid(g, loose, dir, t, w, h),
            pushed_out(g, dir, t, w, h),
            dir.opposite(),
            t,
            w,
            h,
        ) == g,
        pushed_out(shifted_grid(g, loose, dir, t, w, h), dir.opposite(), t, w, h) == loose,
{
    let g1 = shifted_grid(g, loose, dir, t, w, h);
    let l1 = pushed_out(g, dir, t, w, h);
    let g2 = shifted_grid(g1, l1, dir.opposite(), t, w, h);
    assert forall|r: int| 0 <= r < h implies #[trigger] g2[r] =~= g[r] by {
        assert forall|c: int| 0 <= c < w implies g2[r][c] == g[r][c] by {
            assert(g1[r].len() == w);
        }
    }
    assert(g2 =~= g);
}

/// A token moved by an insert and then by the insert back from the opposite edge (along the
/// same line) returns to where it was.
pub proof fn lemma_reinsert_restores_token(
    p: (usize, usize),
    move_dir: Direction,
    t: int,
    w: int,
    h: int,
)
    requires
        w >= 1,
        h >= 1,
        p.0 < h,
        p.1 < w,
        w + w < usize::MAX,
        h + h < usize::MAX,
    ensures
        shifted_token_pos(shifted_token_pos(p, move_dir, t, w, h), move_dir.opposite(), t, w, h)
            == p,
{
    let wu = w as usize;
    let hu = h as usize;
    lemma_wrap_arith(w);
    lemma_wrap_arith(h);
    lemma_small_mod(p.0 as int, h);
    lemma_small_mod(p.1 as int, w);
    if move_fits(p, move_dir, (wu, hu)) {
        crate::tile::lemma_move_fits_back(p, move_dir, (wu, hu));
        crate::tile::lemma_step_back(p, move_dir);
    } else {
        let line = match move_dir {
            Direction::North | Direction::South => p.1 as int,
            Direction::East | Direction::West => p.0 as int,
        };
        if line == t {
            lemma_pushed_off_wraps(p, move_dir, t, w, h);
        }
    }
}

/// Inserting the loose tile twice, the second time from the far edge where the pushed-out tile
/// waits, gives back the board as it was: the tiles, the loose tile and its place, and every
/// token that stood on the board.
pub proof fn lemma_insert_twice_restores(
    b0: &Board,
    b1: &Board,
    b2: &Board,
    s1: AnimSync,
    s2: AnimSync,
)
    requires
        b0.wf(),
        b0.loose_position_valid(),
        forall|k: int|
            0 <= k < b0.player_tokens@.len() ==> b0.in_bounds(#[trigger] b0.player_tokens@[k].position),
        b0.width_spec() + b0.width_spec() < usize::MAX,
        b0.height_spec() + b0.height_spec() < usize::MAX,
        b0.insert_effect(b1, s1),
        b1.insert_effect(b2, s2),
    ensures
        b2.grid() == b0.grid(),
        b2.loose_tile == b0.loose_tile,
        b2.loose_tile_position == b0.loose_tile_position,
        b2.player_tokens@ == b0.player_tokens@,
        b2.tutorial_step == b0.tutorial_step,
{
    let dir = b0.loose_tile_position.0;
    let t = guide_line(b0.loose_tile_position.1);
    let w = b0.width_spec();
    let h = b0.height_spec();
    assert(b1.height_spec() == b1.grid().len());
    assert(b1.cells@[0]@ == b1.grid()[0]);
    assert(b1.width_spec() == w);
    assert(b1.height_spec() == h);
    crate::tile::lemma_opposite_involution(dir);
    lemma_reinsert_restores_grid(b0.grid(), b0.loose_tile, dir, t, w, h);
    assert forall|k: int| 0 <= k < b0.player_tokens@.len() implies #[trigger] b2.player_tokens@[k]
        == b0.player_tokens@[k] by {
        let p = b0.player_tokens@[k].position;
        lemma_reinsert_restores_token(p, dir.opposite(), t, w, h);
    }
    assert(b2.player_tokens@ =~= b0.player_tokens@);
}

/// `2n` and `n - 1` reduced modulo `n`.
proof fn lemma_wrap_arith(n: int)
    requires
        n >= 1,
    ensures
        (2 * n) % n == 0,
        (n - 1) % n == n - 1,
{
    assert((2 * n) % n == 0) by (nonlinear_arith)
        requires
            n >= 1,
    ;
    assert((n - 1) % n == n - 1) by (nonlinear_arith)
        requires
            n >= 1,
    ;
}

/// A number below `n` is its own remainder modulo `n`.
proof fn lemma_small_mod(x: int, n: int)
    requires
        0 <= x < n,
    ensures
        x % n == x,
{
    assert(x % n == x) by (nonlinear_arith)
        requires
            0 <= x < n,
    ;
}

/// A token pushed off the far edge of its line reappears at the other end of the same line, on
/// the edge where the loose tile went in.
pub proof fn lemma_pushed_off_wraps(p: (usize, usize), move_dir: Direction, t: int, w: int, h: int)
    requires
        w >= 1,
        h >= 1,
        p.0 < h,
        p.1 < w,
        w + w < usize::MAX,
        h + h < usize::MAX,
        match move_dir {
            Direction::North | Direction::South => p.1 == t,
            Direction::East | Direction::West => p.0 == t,
        },
        !move_fits(p, move_dir, (w as usize, h as usize)),
    ensures
        shifted_token_pos(p, move_dir, t, w, h) == match move_dir {
            Direction::South => (0usize, p.1),
            Direction::North => ((h - 1) as usize, p.1),
            Direction::East => (p.0, 0usize),
            Direction::West => (p.0, (w - 1) as usize),
        },
{
    lemma_wrap_arith(w);
    lemma_wrap_arith(h);
    lemma_small_mod(p.0 as int, h);
    lemma_small_mod(p.1 as int, w);
}

/// Information about board state
#[derive(Debug)]
pub struct Board {
    /// Cells, row by row
    pub cells: Vec<Vec<Tile>>,
    /// Loose tile
    pub loose_tile: Tile,
    /// Loose tile position: the edge it waits at and the index of the insert guide there
    pub loose_tile_position: (Direction, usize),
    /// Player tokens, in increasing order of player ID
    pub player_tokens: Vec<PlayerToken>,
    /// Step in tutorial, if any
    pub tutorial_step: Option<TutorialStep>,
}

/// A copy of a vector of copyable items.
pub fn copy_vec<T: Copy>(v: &Vec<T>) -> (r: Vec<T>)
    ensures
        r@ == v@,
{
    let mut r: Vec<T> = Vec::new();
    let mut k: usize = 0;
    while k < v.len()
        invariant
            k <= v@.len(),
            r@ == v@.subrange(0, k as int),
        decreases v@.len() - k,
    {
        r.push(v[k]);
        proof {
            assert(v@.subrange(0, k + 1) =~= v@.subrange(0, k as int).push(v@[k as int]));
        }
        k = k + 1;
    }
    proof {
        assert(v@.subrange(0, v@.len() as int) =~= v@);
    }
    r
}

impl Clone for Board {
    fn clone(&self) -> (r: Self)
        ensures
            r.same_board(self),
    {
        let mut cells: Vec<Vec<Tile>> = Vec::new();
        let mut k: usize = 0;
        while k < self.cells.len()
            invariant
                k <= self.cells@.len(),
                grid_of(cells@) == self.grid().subrange(0, k as int),
            decreases self.cells@.len() - k,
        {
            let row = copy_vec(&self.cells[k]);
            let ghost before = cells@;
            cells.push(row);
            proof {
                assert(grid_of(cells@) =~= grid_of(before).push(row@));
                assert(self.grid().subrange(0, k + 1) =~= self.grid().subrange(0, k as int).push(
                    self.grid()[k as int],
                ));
            }
            k = k + 1;
        }
        proof {
            assert(self.grid().subrange(0, self.cells@.len() as int) =~= self.grid());
            assert(cells@.len() == grid_of(cells@).len());
        }
        Board {
            cells,
            loose_tile: self.loose_tile,
            loose_tile_position: self.loose_tile_position,
            player_tokens: copy_vec(&self.player_tokens),
            tutorial_step: self.tutorial_step,
        }
    }
}

impl Board {
    /// The two boards hold the same tiles, loose tile, tokens and tutorial step.
    pub open spec fn same_board(&self, other: &Board) -> bool {
        &&& self.grid() == other.grid()
        &&& self.cells@.len() == other.cells@.len()
        &&& self.loose_tile == other.loose_tile
        &&& self.loose_tile_position == other.loose_tile_position
        &&& self.player_tokens@ == other.player_tokens@
        &&& self.tutorial_step == other.tutorial_step
    }

    /// The tiles, row by row.
    pub open spec fn grid(&self) -> Seq<Seq<Tile>> {
        grid_of(self.cells@)
    }

    /// Number of rows.
    pub open spec fn height_spec(&self) -> int {
        self.cells@.len() as int
    }

    /// Number of columns (the length of the first row).
    pub open spec fn width_spec(&self) -> int {
        self.cells@[0]@.len() as int
    }

    /// `(width, height)`, the order in which moves are checked against the board.
    pub open spec fn dims(&self) -> (usize, usize) {
        (self.width_spec() as usize, self.height_spec() as usize)
    }

    /// At least one row, at least one column, and all rows equally long.
    pub open spec fn rectangular(&self) -> bool {
        &&& self.height_spec() >= 1
        &&& self.width_spec() >= 1
        &&& grid_rect(self.grid(), self.width_spec(), self.height_spec())
    }

    /// Tokens are listed in strictly increasing order of player ID.
    pub open spec fn tokens_sorted(&self) -> bool {
        forall|i: int, j: int|
            0 <= i < j < self.player_tokens@.len() ==> #[trigger] self.player_tokens@[i].player_id
                < #[trigger] self.player_tokens@[j].player_id
    }

    /// The board is rectangular and its tokens are keyed by distinct player IDs.
    pub open spec fn wf(&self) -> bool {
        self.rectangular() && self.tokens_sorted()
    }

    /// Whether `p` is a `(row, col)` on the board.
    pub open spec fn in_bounds(&self, p: (usize, usize)) -> bool {
        p.0 < self.height_spec() && p.1 < self.width_spec()
    }

    /// The tile at `(row, col)`.
    pub open spec fn cell(&self, p: (usize, usize)) -> Tile {
        self.grid()[p.0 as int][p.1 as int]
    }

    /// Whether a token for the player exists.
    pub open spec fn has_token(&self, id: PlayerID) -> bool {
        exists|i: int| 0 <= i < self.player_tokens@.len() && self.player_tokens@[i].player_id == id
    }

    /// The index of the player's token.
    pub open spec fn token_index_spec(&self, id: PlayerID) -> int {
        choose|i: int| 0 <= i < self.player_tokens@.len() && self.player_tokens@[i].player_id == id
    }

    /// The player's token.
    pub open spec fn token_of(&self, id: PlayerID) -> PlayerToken {
        self.player_tokens@[self.token_index_spec(id)]
    }

    /// The loose tile's insert guide leads onto the board.
    pub open spec fn loose_position_valid(&self) -> bool {
        let (dir, guide) = self.loose_tile_position;
        match dir {
            Direction::North | Direction::South => guide_line(guide) < self.width_spec(),
            Direction::East | Direction::West => guide_line(guide) < self.height_spec(),
        }
    }

    /// Every token that an insert of the loose tile moves can be moved without overflow.
    pub open spec fn insert_defined(&self) -> bool {
        forall|k: int|
            0 <= k < self.player_tokens@.len() ==> token_shift_defined(
                #[trigger] self.player_tokens@[k].position,
                self.loose_tile_position.0.opposite(),
                guide_line(self.loose_tile_position.1),
                self.width_spec(),
                self.height_spec(),
            )
    }

    /// `after` is this board with the loose tile inserted at its insert guide: the tile enters
    /// the guide's row or column from its edge and pushes it one step across, the tile pushed off
    /// the far edge becomes the loose tile on that far edge, tokens on the line move along, and
    /// `sync` is the animation of the push.
    pub open spec fn insert_effect(&self, after: &Board, sync: AnimSync) -> bool {
        let dir = self.loose_tile_position.0;
        let t = guide_line(self.loose_tile_position.1);
        let w = self.width_spec();
        let h = self.height_spec();
        &&& after.grid() == shifted_grid(self.grid(), self.loose_tile, dir, t, w, h)
        &&& after.loose_tile == pushed_out(self.grid(), dir, t, w, h)
        &&& after.loose_tile_position == (dir.opposite(), self.loose_tile_position.1)
        &&& after.player_tokens@ == self.player_tokens@.map_values(
            |tok: PlayerToken| shifted_token(tok, dir.opposite(), t, w, h),
        )
        &&& after.tutorial_step == self.tutorial_step
        &&& sync == AnimSync::Insert(dir.opposite(), t as usize)
    }

    /// Gets a cell from the board, at `[col, row]`
    pub fn get(&self, ind: [usize; 2]) -> (r: &Tile)
        requires
            self.rectangular(),
            self.in_bounds((ind[1], ind[0])),
        ensures
            *r == self.cell((ind[1], ind[0])),
    {
        assert(self.cells@[ind[1] as int]@.len() == self.grid()[ind[1] as int].len());
        &self.cells[ind[1]][ind[0]]
    }

    /// Gets the width of the board
    pub fn width(&self) -> (r: usize)
        requires
            self.cells@.len() > 0,
        ensures
            r == self.width_spec(),
    {
        self.cells[0].len()
    }

    /// Gets the height of the board
    pub fn height(&self) -> (r: usize)
        ensures
            r == self.height_spec(),
    {
        self.cells.len()
    }

    /// The index of the token of the given player, if there is one.
    pub fn token_index(&self, id: PlayerID) -> (r: Option<usize>)
        requires
            self.tokens_sorted(),
        ensures
            match r {
                Some(i) => i < self.player_tokens@.len() && self.player_tokens@[i as int].player_id
                    == id && i == self.token_index_spec(id),
                None => !self.has_token(id),
            },
    {
        let mut k: usize = 0;
        while k < self.player_tokens.len()
            invariant
                self.tokens_sorted(),
                k <= self.player_tokens@.len(),
                forall|m: int| 0 <= m < k ==> self.player_tokens@[m].player_id != id,
            decreases self.player_tokens@.len() - k,
        {
            if self.player_tokens[k].player_id == id {
                proof {
                    self.lemma_token_index_unique(id, k as int);
                }
                return Some(k);
            }
            k = k + 1;
        }
        None
    }

    /// With sorted tokens, the token of a player sits at a single index.
    pub proof fn lemma_token_index_unique(&self, id: PlayerID, i: int)
        requires
            self.tokens_sorted(),
            0 <= i < self.player_tokens@.len(),
            self.player_tokens@[i].player_id == id,
        ensures
            self.has_token(id),
            self.token_index_spec(id) == i,
    {
        let j = self.token_index_spec(id);
        assert(self.player_tokens@[j].player_id == id);
        if j < i {
            assert(self.player_tokens@[j].player_id < self.player_tokens@[i].player_id);
        } else if i < j {
            assert(self.player_tokens@[i].player_id < self.player_tokens@[j].player_id);
        }
    }

    /// Gets the (row, col) position of the given player
    pub fn player_pos(&self, id: PlayerID) -> (r: (usize, usize))
        requires
            self.tokens_sorted(),
            self.has_token(id),
        ensures
            r == self.token_of(id).position,
    {
        match self.token_index(id) {
            Some(i) => self.player_tokens[i].position,
            None => {
                proof {
                    assert(false);
                }
                (0, 0)
            },
        }
    }

    /// Moves the given player to the given (row, col)
    pub fn move_player(&mut self, id: PlayerID, pos: (usize, usize))
        requires
            old(self).tokens_sorted(),
            old(self).has_token(id),
        ensures
            final(self).player_tokens@ == old(self).player_tokens@.update(
                old(self).token_index_spec(id),
                PlayerToken { position: pos, ..old(self).token_of(id) },
            ),
            final(self).cells == old(self).cells,
            final(self).loose_tile == old(self).loose_tile,
            final(self).loose_tile_position == old(self).loose_tile_position,
            final(self).tutorial_step == old(self).tutorial_step,
    {
        match self.token_index(id) {
            Some(i) => {
                let tok = self.player_tokens[i];
                self.player_tokens.set(i, PlayerToken { position: pos, ..tok });
            },
            None => {
                proof {
                    assert(false);
                }
            },
        }
    }

    /// Inserts the loose tile at its current position: the tile enters at its insert guide and
    /// pushes that row or column one step across the board, the tile pushed off the far edge
    /// becomes the loose tile (waiting on that far edge), and tokens on the pushed line move
    /// along. Returns the animation to start.
    pub fn insert_loose_tile(&mut self) -> (r: AnimSync)
        requires
            old(self).wf(),
            old(self).loose_position_valid(),
            old(self).insert_defined(),
        ensures
            old(self).insert_effect(final(self), r),
            final(self).wf(),
    {
        let (dir, guide_idx) = self.loose_tile_position;
        let width = self.width();
        let height = self.height();
        let target_idx = 2 * guide_idx + 1;
        let move_dir = dir.compose(Direction::South);
        let sync = AnimSync::Insert(move_dir, target_idx);
        let incoming = self.loose_tile;
        let ghost w = self.width_spec();
        let next_loose_tile = match dir {
            Direction::North => push_column_south(&mut self.cells, target_idx, incoming, Ghost(w)),
            Direction::South => push_column_north(&mut self.cells, target_idx, incoming, Ghost(w)),
            Direction::West => push_row_east(&mut self.cells, target_idx, incoming, Ghost(w)),
            Direction::East => push_row_west(&mut self.cells, target_idx, incoming, Ghost(w)),
        };
        self.loose_tile = next_loose_tile;
        self.loose_tile_position = (move_dir, guide_idx);
        shift_tokens(&mut self.player_tokens, move_dir, target_idx, width, height);
        proof {
            assert(self.grid().len() == height);
            assert(self.grid()[0].len() == width);
            assert(self.cells@[0]@.len() == self.grid()[0].len());
        }
        sync
    }
}

} // verus!
