//! Building a fresh random board.

use vstd::prelude::*;

use crate::board::{grid_rect, Board, PlayerToken};
use crate::targets::with_target;
use crate::demo;
use crate::player::{Player, PlayerID};
use crate::rng;
use crate::tile::{Direction, Shape, Tile};

verus! {

/// Players listed in strictly increasing order of ID.
pub open spec fn players_sorted(players: Seq<Player>) -> bool {
    forall|i: int, j: int|
        0 <= i < j < players.len() ==> #[trigger] players[i].id < #[trigger] players[j].id
}

/// Where the `i`-th player (in order of ID) starts on a fresh board, for the first four players:
/// the corners, in the order top-left, bottom-right, top-right, bottom-left.
pub open spec fn start_corner(i: int, w: int, h: int) -> (usize, usize) {
    if i == 0 {
        (0, 0)
    } else if i == 1 {
        ((h - 1) as usize, (w - 1) as usize)
    } else if i == 2 {
        (0, (w - 1) as usize)
    } else {
        ((h - 1) as usize, 0)
    }
}

/// The outer tiles at even positions along each edge are not open towards the outside.
pub open spec fn edges_point_inward(g: Seq<Seq<Tile>>, w: int, h: int) -> bool {
    &&& forall|c: int|
        0 <= c < w && c % 2 == 0 ==> !(#[trigger] g[0][c]).opens(Direction::North) && !g[h
            - 1][c].opens(Direction::South)
    &&& forall|r: int|
        0 <= r < h && r % 2 == 0 ==> !(#[trigger] g[r][0]).opens(Direction::West) && !g[r][w
            - 1].opens(Direction::East)
}

/// The corner tiles are bends that join the two edges they sit on (shape and orientation).
pub open spec fn corners_set(g: Seq<Seq<Tile>>, w: int, h: int) -> bool {
    &&& g[0][0].shape == Shape::L && g[0][0].orientation == Direction::East
    &&& g[0][w - 1].shape == Shape::L && g[0][w - 1].orientation == Direction::South
    &&& g[h - 1][0].shape == Shape::L && g[h - 1][0].orientation == Direction::North
    &&& g[h - 1][w - 1].shape == Shape::L && g[h - 1][w - 1].orientation == Direction::West
}

/// All cells holding the given player's target.
pub open spec fn targets_of(b: &Board, id: PlayerID) -> Set<(usize, usize)> {
    Set::new(|q: (usize, usize)| b.in_bounds(q) && b.cell(q).whose_target == Some(id))
}

/// All cells holding some target.
pub open spec fn targeted_cells(b: &Board) -> Set<(usize, usize)> {
    Set::new(|q: (usize, usize)| b.in_bounds(q) && b.cell(q).whose_target is Some)
}

/// All `(row, col)` positions of a `h` by `w` board, row by row.
pub open spec fn coords_seq(w: int, h: int) -> Seq<(usize, usize)>
    decreases h,
{
    if h <= 0 {
        Seq::empty()
    } else {
        coords_seq(w, h - 1) + Seq::new(w as nat, |c: int| ((h - 1) as usize, c as usize))
    }
}

proof fn lemma_coords_seq(w: int, h: int)
    requires
        0 <= w <= usize::MAX,
        0 <= h <= usize::MAX,
    ensures
        coords_seq(w, h).len() == w * h,
        coords_seq(w, h).no_duplicates(),
        forall|q: (usize, usize)| #[trigger] coords_seq(w, h).contains(q) <==> q.0 < h && q.1 < w,
    decreases h,
{
    if h > 0 {
        lemma_coords_seq(w, h - 1);
        let a = coords_seq(w, h - 1);
        let b = Seq::new(w as nat, |c: int| ((h - 1) as usize, c as usize));
        let s = coords_seq(w, h);
        assert(s == a + b);
        assert((h - 1) * w + w == h * w) by (nonlinear_arith);
        assert forall|q: (usize, usize)| #[trigger] s.contains(q) <==> q.0 < h && q.1 < w by {
            if s.contains(q) {
                let k = choose|k: int| 0 <= k < s.len() && s[k] == q;
                if k < a.len() {
                    assert(a[k] == q);
                    assert(a.contains(q));
                } else {
                    assert(b[k - a.len()] == q);
                }
            }
            if q.0 < h && q.1 < w {
                if q.0 < h - 1 {
                    assert(a.contains(q));
                    let k = choose|k: int| 0 <= k < a.len() && a[k] == q;
                    assert(s[k] == q);
                } else {
                    assert(b[q.1 as int] == q);
                    assert(s[a.len() + q.1 as int] == q);
                }
            }
        }
        assert forall|i: int, j: int| 0 <= i < s.len() && 0 <= j < s.len() && i != j implies s[i]
            != s[j] by {
            if i < a.len() && j < a.len() {
                assert(s[i] == a[i] && s[j] == a[j]);
            } else if i >= a.len() && j >= a.len() {
                assert(s[i] == b[i - a.len()] && s[j] == b[j - a.len()]);
            } else if i < a.len() {
                assert(a.contains(a[i]));
                assert(s[i].0 < h - 1);
                assert(s[j] == b[j - a.len()]);
            } else {
                assert(a.contains(a[j]));
                assert(s[j].0 < h - 1);
                assert(s[i] == b[i - a.len()]);
            }
        }
    }
}

/// The board holds `w * h` positions.
proof fn lemma_positions_len(w: int, h: int)
    requires
        0 <= w <= usize::MAX,
        0 <= h <= usize::MAX,
    ensures
        Set::new(|q: (usize, usize)| q.0 < h && q.1 < w).finite(),
        Set::new(|q: (usize, usize)| q.0 < h && q.1 < w).len() == w * h,
{
    lemma_coords_seq(w, h);
    coords_seq(w, h).unique_seq_to_set();
    assert(coords_seq(w, h).to_set() =~= Set::new(|q: (usize, usize)| q.0 < h && q.1 < w));
}

/// All twelve shape and orientation combinations that are not open towards `target`.
fn tiles_avoiding(target: Direction) -> (r: Vec<Tile>)
    ensures
        r@.len() > 0,
        forall|k: int| 0 <= k < r@.len() ==> !(#[trigger] r@[k]).opens(target) && r@[k].whose_target is None,
{
    let shapes = vec![Shape::L, Shape::I, Shape::T];
    let dirs = Direction::all();
    let mut r: Vec<Tile> = Vec::new();
    let mut s: usize = 0;
    while s < 3
        invariant
            shapes@ == seq![Shape::L, Shape::I, Shape::T],
            dirs@ == seq![Direction::North, Direction::South, Direction::East, Direction::West],
            s <= 3,
            forall|k: int| 0 <= k < r@.len() ==> !(#[trigger] r@[k]).opens(target) && r@[k].whose_target is None,
            s > 0 ==> r@.len() > 0,
        decreases 3 - s,
    {
        let mut o: usize = 0;
        while o < 4
            invariant
                shapes@ == seq![Shape::L, Shape::I, Shape::T],
                dirs@ == seq![Direction::North, Direction::South, Direction::East, Direction::West],
                s < 3,
                o <= 4,
                forall|k: int| 0 <= k < r@.len() ==> !(#[trigger] r@[k]).opens(target) && r@[k].whose_target is None,
                s > 0 ==> r@.len() > 0,
                s == 0 && o == 4 ==> r@.len() > 0,
                s == 0 && r@.len() == 0 ==> forall|m: int| 0 <= m < o ==> (Tile { shape: Shape::L, orientation: #[trigger] dirs@[m], whose_target: None }).opens(target),
            decreases 4 - o,
        {
            let t = Tile { shape: shapes[s], orientation: dirs[o], whose_target: None };
            if !t.has_path(target) {
                r.push(t);
            }
            o = o + 1;
        }
        proof {
            if s == 0 && r@.len() == 0 {
                let opp = target.opposite();
                let m = if opp == Direction::North {
                    0int
                } else if opp == Direction::South {
                    1int
                } else if opp == Direction::East {
                    2int
                } else {
                    3int
                };
                let t = Tile { shape: Shape::L, orientation: dirs@[m], whose_target: None };
                assert(t.opens(target));
                let ps = t.path_seq();
                assert(ps =~= seq![Direction::North.composed(opp), Direction::East.composed(opp)]);
                let k = choose|k: int| 0 <= k < ps.len() && ps[k] == target;
                assert(false);
            }
        }
        s = s + 1;
    }
    r
}

/// Re-draws a tile that is open towards `target`, uniformly among the shape and orientation
/// combinations that are not (the distribution of drawing random tiles until one fits).
fn avoid_path(tile: &mut Tile, target: Direction)
    requires
        old(tile).whose_target is None,
    ensures
        !final(tile).opens(target),
        final(tile).whose_target is None,
        !old(tile).opens(target) ==> *final(tile) == *old(tile),
{
    if tile.has_path(target) {
        let options = tiles_avoiding(target);
        let k = rng::random_below(options.len());
        *tile = options[k];
    }
}

/// The corner tiles are not open towards the edges they sit on.
proof fn lemma_corners_closed_outward()
    ensures
        ({
            let nw = Tile { shape: Shape::L, orientation: Direction::East, whose_target: None };
            let ne = Tile { shape: Shape::L, orientation: Direction::South, whose_target: None };
            let sw = Tile { shape: Shape::L, orientation: Direction::North, whose_target: None };
            let se = Tile { shape: Shape::L, orientation: Direction::West, whose_target: None };
            &&& !nw.opens(Direction::North) && !nw.opens(Direction::West)
            &&& !ne.opens(Direction::North) && !ne.opens(Direction::East)
            &&& !sw.opens(Direction::South) && !sw.opens(Direction::West)
            &&& !se.opens(Direction::South) && !se.opens(Direction::East)
        }),
{
    let nw = Tile { shape: Shape::L, orientation: Direction::East, whose_target: None };
    let ne = Tile { shape: Shape::L, orientation: Direction::South, whose_target: None };
    let sw = Tile { shape: Shape::L, orientation: Direction::North, whose_target: None };
    let se = Tile { shape: Shape::L, orientation: Direction::West, whose_target: None };
    assert(nw.path_seq() =~= seq![Direction::East, Direction::South]);
    assert(ne.path_seq() =~= seq![Direction::South, Direction::West]);
    assert(sw.path_seq() =~= seq![Direction::North, Direction::East]);
    assert(se.path_seq() =~= seq![Direction::West, Direction::North]);
}

/// No tile of the grid holds a target.
pub open spec fn untargeted(g: Seq<Seq<Tile>>, w: int, h: int) -> bool {
    forall|r: int, c: int| 0 <= r < h && 0 <= c < w ==> (#[trigger] g[r][c]).whose_target is None
}

/// Re-draws the edge tile at `(r, c)` if it is open towards `dir`.
fn fix_edge_cell(cells: &mut Vec<Vec<Tile>>, r: usize, c: usize, dir: Direction, w: Ghost<int>)
    requires
        grid_rect(crate::board::grid_of(old(cells)@), w@, old(cells)@.len() as int),
        r < old(cells)@.len(),
        c < w@,
        untargeted(crate::board::grid_of(old(cells)@), w@, old(cells)@.len() as int),
    ensures
        ({
            let g0 = crate::board::grid_of(old(cells)@);
            let g1 = crate::board::grid_of(final(cells)@);
            &&& final(cells)@.len() == old(cells)@.len()
            &&& g1 == g0.update(r as int, g0[r as int].update(c as int, g1[r as int][c as int]))
            &&& !g1[r as int][c as int].opens(dir)
            &&& !g0[r as int][c as int].opens(dir) ==> g1[r as int][c as int] == g0[r as int][c as int]
            &&& grid_rect(g1, w@, old(cells)@.len() as int)
            &&& untargeted(g1, w@, old(cells)@.len() as int)
        }),
{
    let ghost g0 = crate::board::grid_of(cells@);
    proof {
        assert(cells@[r as int]@ == g0[r as int]);
    }
    let mut t = cells[r][c];
    avoid_path(&mut t, dir);
    cells[r][c] = t;
    proof {
        let g1 = crate::board::grid_of(cells@);
        assert(g1 =~= g0.update(r as int, g0[r as int].update(c as int, t)));
    }
}

/// A fresh `height` by `width` grid of random tiles without targets.
fn random_cells(width: usize, height: usize) -> (r: Vec<Vec<Tile>>)
    ensures
        grid_rect(crate::board::grid_of(r@), width as int, height as int),
        untargeted(crate::board::grid_of(r@), width as int, height as int),
{
    let mut cells: Vec<Vec<Tile>> = Vec::new();
    let mut j: usize = 0;
    while j < height
        invariant
            j <= height,
            cells@.len() == j,
            forall|k: int| 0 <= k < j ==> #[trigger] cells@[k]@.len() == width,
            forall|k: int, c: int|
                0 <= k < j && 0 <= c < width ==> (#[trigger] cells@[k]@[c]).whose_target is None,
        decreases height - j,
    {
        let mut row: Vec<Tile> = Vec::new();
        let mut i: usize = 0;
        while i < width
            invariant
                i <= width,
                row@.len() == i,
                forall|c: int| 0 <= c < i ==> (#[trigger] row@[c]).whose_target is None,
            decreases width - i,
        {
            row.push(Tile::random());
            i = i + 1;
        }
        cells.push(row);
        j = j + 1;
    }
    proof {
        let g = crate::board::grid_of(cells@);
        assert forall|k: int| 0 <= k < height implies #[trigger] g[k].len() == width by {
            assert(g[k] == cells@[k]@);
        }
        assert forall|k: int, c: int| 0 <= k < height && 0 <= c < width implies (#[trigger] g[k][c]).whose_target is None by {
            assert(g[k] == cells@[k]@);
        }
    }
    cells
}

/// Sets the tile at `(r, c)`.
fn put_tile(cells: &mut Vec<Vec<Tile>>, r: usize, c: usize, t: Tile, w: Ghost<int>)
    requires
        grid_rect(crate::board::grid_of(old(cells)@), w@, old(cells)@.len() as int),
        r < old(cells)@.len(),
        c < w@,
    ensures
        final(cells)@.len() == old(cells)@.len(),
        crate::board::grid_of(final(cells)@) == crate::board::grid_of(old(cells)@).update(
            r as int,
            crate::board::grid_of(old(cells)@)[r as int].update(c as int, t),
        ),
{
    let ghost g0 = crate::board::grid_of(cells@);
    proof {
        assert(cells@[r as int]@ == g0[r as int]);
    }
    cells[r][c] = t;
    proof {
        assert(crate::board::grid_of(cells@) =~= g0.update(r as int, g0[r as int].update(c as int, t)));
    }
}

/// Whether the corners hold the fixed bends (ignoring targets).
proof fn lemma_corners_kept(g0: Seq<Seq<Tile>>, g1: Seq<Seq<Tile>>, w: int, h: int, r: int, c: int)
    requires
        w >= 2,
        h >= 2,
        grid_rect(g0, w, h),
        corners_set(g0, w, h),
        0 <= r < h,
        0 <= c < w,
        g1 == g0.update(r, g0[r].update(c, g1[r][c])),
        (r == 0 || r == h - 1) && (c == 0 || c == w - 1) ==> g1[r][c] == g0[r][c],
    ensures
        corners_set(g1, w, h),
{
    assert(g1[0][0] == g0[0][0]);
    assert(g1[0][w - 1] == g0[0][w - 1]);
    assert(g1[h - 1][0] == g0[h - 1][0]);
    assert(g1[h - 1][w - 1] == g0[h - 1][w - 1]);
}

/// Whether `g1` differs from `g0` at most at the positions that `changed` admits.
pub open spec fn same_except(
    g0: Seq<Seq<Tile>>,
    g1: Seq<Seq<Tile>>,
    w: int,
    h: int,
    changed: spec_fn(int, int) -> bool,
) -> bool {
    forall|r: int, c: int| 0 <= r < h && 0 <= c < w && !changed(r, c) ==> #[trigger] g1[r][c] == g0[r][c]
}

/// Turns the two ends of column `i` (top and bottom row) inwards, unless `i` is a corner column.
fn fix_column_ends(cells: &mut Vec<Vec<Tile>>, i: usize, width: usize, height: usize)
    requires
        width >= 2,
        height >= 2,
        i < width,
        grid_rect(crate::board::grid_of(old(cells)@), width as int, height as int),
        untargeted(crate::board::grid_of(old(cells)@), width as int, height as int),
        corners_set(crate::board::grid_of(old(cells)@), width as int, height as int),
    ensures
        ({
            let g0 = crate::board::grid_of(old(cells)@);
            let g1 = crate::board::grid_of(final(cells)@);
            let w = width as int;
            let h = height as int;
            &&& grid_rect(g1, w, h)
            &&& untargeted(g1, w, h)
            &&& corners_set(g1, w, h)
            &&& !g1[0][i as int].opens(Direction::North)
            &&& !g1[h - 1][i as int].opens(Direction::South)
            &&& same_except(g0, g1, w, h, |r: int, c: int| (r == 0 || r == h - 1) && c == i && 0 < c < w - 1)
        }),
{
    let ghost w = width as int;
    let ghost h = height as int;
    let ghost g0 = crate::board::grid_of(cells@);
    proof {
        lemma_corners_closed_outward();
        assert(g0[0][0] == Tile { shape: Shape::L, orientation: Direction::East, whose_target: None });
        assert(g0[0][w - 1] == Tile { shape: Shape::L, orientation: Direction::South, whose_target: None });
        assert(g0[h - 1][0] == Tile { shape: Shape::L, orientation: Direction::North, whose_target: None });
        assert(g0[h - 1][w - 1] == Tile { shape: Shape::L, orientation: Direction::West, whose_target: None });
    }
    fix_edge_cell(cells, 0, i, Direction::North, Ghost(w));
    let ghost g1 = crate::board::grid_of(cells@);
    proof {
        lemma_corners_kept(g0, g1, w, h, 0, i as int);
    }
    fix_edge_cell(cells, height - 1, i, Direction::South, Ghost(w));
    proof {
        let g2 = crate::board::grid_of(cells@);
        lemma_corners_kept(g1, g2, w, h, h - 1, i as int);
        assert(g2[0][i as int] == g1[0][i as int]);
        assert forall|r: int, c: int|
            0 <= r < h && 0 <= c < w && !((r == 0 || r == h - 1) && c == i && 0 < c < w - 1) implies #[trigger] g2[r][c]
            == g0[r][c] by {
            assert(g2[r][c] == g1[r][c]);
        }
    }
}

/// Turns the two ends of row `j` (left and right column) inwards, unless `j` is a corner row.
fn fix_row_ends(cells: &mut Vec<Vec<Tile>>, j: usize, width: usize, height: usize)
    requires
        width >= 2,
        height >= 2,
        j < height,
        grid_rect(crate::board::grid_of(old(cells)@), width as int, height as int),
        untargeted(crate::board::grid_of(old(cells)@), width as int, height as int),
        corners_set(crate::board::grid_of(old(cells)@), width as int, height as int),
    ensures
        ({
            let g0 = crate::board::grid_of(old(cells)@);
            let g1 = crate::board::grid_of(final(cells)@);
            let w = width as int;
            let h = height as int;
            &&& grid_rect(g1, w, h)
            &&& untargeted(g1, w, h)
            &&& corners_set(g1, w, h)
            &&& !g1[j as int][0].opens(Direction::West)
            &&& !g1[j as int][w - 1].opens(Direction::East)
            &&& same_except(g0, g1, w, h, |r: int, c: int| (c == 0 || c == w - 1) && r == j && 0 < r < h - 1)
        }),
{
    let ghost w = width as int;
    let ghost h = height as int;
    let ghost g0 = crate::board::grid_of(cells@);
    proof {
        lemma_corners_closed_outward();
        assert(g0[0][0] == Tile { shape: Shape::L, orientation: Direction::East, whose_target: None });
        assert(g0[0][w - 1] == Tile { shape: Shape::L, orientation: Direction::South, whose_target: None });
        assert(g0[h - 1][0] == Tile { shape: Shape::L, orientation: Direction::North, whose_target: None });
        assert(g0[h - 1][w - 1] == Tile { shape: Shape::L, orientation: Direction::West, whose_target: None });
    }
    fix_edge_cell(cells, j, 0, Direction::West, Ghost(w));
    let ghost g1 = crate::board::grid_of(cells@);
    proof {
        lemma_corners_kept(g0, g1, w, h, j as int, 0);
    }
    fix_edge_cell(cells, j, width - 1, Direction::East, Ghost(w));
    proof {
        let g2 = crate::board::grid_of(cells@);
        lemma_corners_kept(g1, g2, w, h, j as int, w - 1);
        assert(g2[j as int][0] == g1[j as int][0]);
        assert forall|r: int, c: int|
            0 <= r < h && 0 <= c < w && !((c == 0 || c == w - 1) && r == j && 0 < r < h - 1) implies #[trigger] g2[r][c]
            == g0[r][c] by {
            assert(g2[r][c] == g1[r][c]);
        }
    }
}

/// Whether `(r, c)` is a corner of a `w` by `h` board.
pub open spec fn is_corner(r: int, c: int, w: int, h: int) -> bool {
    (r == 0 || r == h - 1) && (c == 0 || c == w - 1)
}

/// Whether the tile at `(r, c)` of a `w` by `h` board is one that a fresh layout turns inwards
/// if need be: a tile, not a corner, at an even position of the top or bottom row or of the
/// left or right column.
pub open spec fn edge_fixed(r: int, c: int, w: int, h: int) -> bool {
    &&& !is_corner(r, c, w, h)
    &&& ((r == 0 || r == h - 1) && c % 2 == 0) || ((c == 0 || c == w - 1) && r % 2 == 0)
}

/// What the edge loops of `fix_layout` leave behind: the edges point inwards, and every tile
/// that is neither a corner nor turned inwards is the one drawn.
proof fn lemma_layout_settled(g: Seq<Seq<Tile>>, g_in: Seq<Seq<Tile>>, w: int, h: int)
    requires
        forall|c: int|
            0 <= c < w && c % 2 == 0 ==> !(#[trigger] g[0][c]).opens(Direction::North) && !g[h
                - 1][c].opens(Direction::South),
        forall|r: int|
            0 <= r < h && r % 2 == 0 ==> !(#[trigger] g[r][0]).opens(Direction::West) && !g[r][w
                - 1].opens(Direction::East),
        forall|r: int, c: int|
            0 <= r < h && 0 <= c < w && !is_corner(r, c, w, h) && !((r == 0 || r == h - 1) && c % 2 == 0)
                && !((c == 0 || c == w - 1) && r % 2 == 0 && r < h) ==> #[trigger] g[r][c] == g_in[r][c],
    ensures
        edges_point_inward(g, w, h),
        forall|r: int, c: int|
            0 <= r < h && 0 <= c < w && !is_corner(r, c, w, h) && !edge_fixed(r, c, w, h) ==> #[trigger] g[r][c]
                == g_in[r][c],
{
    assert forall|r: int, c: int|
        0 <= r < h && 0 <= c < w && !is_corner(r, c, w, h) && !edge_fixed(r, c, w, h) implies #[trigger] g[r][c]
        == g_in[r][c] by {
        assert(!((r == 0 || r == h - 1) && c % 2 == 0));
        assert(!((c == 0 || c == w - 1) && r % 2 == 0 && r < h));
    }
}

/// A fresh random layout: random tiles (see `fix_layout`).
fn fresh_layout(width: usize, height: usize) -> (r: Vec<Vec<Tile>>)
    requires
        width >= 2,
        height >= 2,
    ensures
        grid_rect(crate::board::grid_of(r@), width as int, height as int),
        untargeted(crate::board::grid_of(r@), width as int, height as int),
        corners_set(crate::board::grid_of(r@), width as int, height as int),
        edges_point_inward(crate::board::grid_of(r@), width as int, height as int),
{
    let cells = random_cells(width, height);
    fix_layout(cells, width, height)
}

/// Settles a layout of drawn tiles: the corners become fixed bends, and the outer tiles at even
/// positions along each edge that are open towards the outside are drawn again until they are
/// not. Every other tile is kept as drawn.
#[verifier::spinoff_prover]
pub fn fix_layout(cells: Vec<Vec<Tile>>, width: usize, height: usize) -> (r: Vec<Vec<Tile>>)
    requires
        width >= 2,
        height >= 2,
        grid_rect(crate::board::grid_of(cells@), width as int, height as int),
        untargeted(crate::board::grid_of(cells@), width as int, height as int),
    ensures
        grid_rect(crate::board::grid_of(r@), width as int, height as int),
        untargeted(crate::board::grid_of(r@), width as int, height as int),
        corners_set(crate::board::grid_of(r@), width as int, height as int),
        edges_point_inward(crate::board::grid_of(r@), width as int, height as int),
        forall|row: int, col: int|
            0 <= row < height && 0 <= col < width && !is_corner(row, col, width as int, height as int)
                && !edge_fixed(row, col, width as int, height as int) ==> #[trigger] crate::board::grid_of(
                r@,
            )[row][col] == crate::board::grid_of(cells@)[row][col],
{
    let ghost w = width as int;
    let ghost h = height as int;
    let ghost g_in = crate::board::grid_of(cells@);
    let mut cells = cells;
    put_tile(&mut cells, 0, 0, Tile { shape: Shape::L, orientation: Direction::East, whose_target: None }, Ghost(w));
    let ghost g1 = crate::board::grid_of(cells@);
    put_tile(&mut cells, 0, width - 1, Tile { shape: Shape::L, orientation: Direction::South, whose_target: None }, Ghost(w));
    let ghost g2 = crate::board::grid_of(cells@);
    put_tile(&mut cells, height - 1, 0, Tile { shape: Shape::L, orientation: Direction::North, whose_target: None }, Ghost(w));
    let ghost g3 = crate::board::grid_of(cells@);
    put_tile(&mut cells, height - 1, width - 1, Tile { shape: Shape::L, orientation: Direction::West, whose_target: None }, Ghost(w));
    proof {
        let g4 = crate::board::grid_of(cells@);
        assert forall|r: int, c: int|
            0 <= r < h && 0 <= c < w && !is_corner(r, c, w, h) implies #[trigger] g4[r][c] == g_in[r][c] by {
            assert(g4[r][c] == g3[r][c]);
            assert(g3[r][c] == g2[r][c]);
            assert(g2[r][c] == g1[r][c]);
            assert(g1[r][c] == g_in[r][c]);
        }
    }
    // the outer tiles at even positions of the top and bottom rows point inwards
    let mut i: usize = 0;
    while i < width
        invariant
            width >= 2,
            height >= 2,
            w == width,
            h == height,
            i <= width,
            forall|r: int, c: int|
                0 <= r < h && 0 <= c < w && !is_corner(r, c, w, h) && !((r == 0 || r == h - 1) && c % 2 == 0
                    && c < i) ==> #[trigger] crate::board::grid_of(cells@)[r][c] == g_in[r][c],
            grid_rect(crate::board::grid_of(cells@), w, h),
            untargeted(crate::board::grid_of(cells@), w, h),
            corners_set(crate::board::grid_of(cells@), w, h),
            forall|c: int|
                0 <= c < i && c % 2 == 0 ==> !(#[trigger] crate::board::grid_of(cells@)[0][c]).opens(
                    Direction::North,
                ) && !crate::board::grid_of(cells@)[h - 1][c].opens(Direction::South),
        decreases width - i,
    {
        if i % 2 == 0 {
            let ghost g0 = crate::board::grid_of(cells@);
            fix_column_ends(&mut cells, i, width, height);
            proof {
                let g2 = crate::board::grid_of(cells@);
                assert forall|c: int|
                    0 <= c < i + 1 && c % 2 == 0 implies !(#[trigger] g2[0][c]).opens(Direction::North)
                    && !g2[h - 1][c].opens(Direction::South) by {
                    if c < i {
                        assert(g2[0][c] == g0[0][c]);
                        assert(g2[h - 1][c] == g0[h - 1][c]);
                    }
                }
            }
        }
        i = i + 1;
    }
    // the outer tiles at even positions of the left and right columns point inwards
    let mut j: usize = 0;
    while j < height
        invariant
            width >= 2,
            height >= 2,
            w == width,
            h == height,
            j <= height,
            forall|r: int, c: int|
                0 <= r < h && 0 <= c < w && !is_corner(r, c, w, h) && !((r == 0 || r == h - 1) && c % 2 == 0)
                    && !((c == 0 || c == w - 1) && r % 2 == 0 && r < j) ==> #[trigger] crate::board::grid_of(
                    cells@,
                )[r][c] == g_in[r][c],
            grid_rect(crate::board::grid_of(cells@), w, h),
            untargeted(crate::board::grid_of(cells@), w, h),
            corners_set(crate::board::grid_of(cells@), w, h),
            forall|c: int|
                0 <= c < w && c % 2 == 0 ==> !(#[trigger] crate::board::grid_of(cells@)[0][c]).opens(
                    Direction::North,
                ) && !crate::board::grid_of(cells@)[h - 1][c].opens(Direction::South),
            forall|r: int|
                0 <= r < j && r % 2 == 0 ==> !(#[trigger] crate::board::grid_of(cells@)[r][0]).opens(
                    Direction::West,
                ) && !crate::board::grid_of(cells@)[r][w - 1].opens(Direction::East),
        decreases height - j,
    {
        if j % 2 == 0 {
            let ghost g0 = crate::board::grid_of(cells@);
            fix_row_ends(&mut cells, j, width, height);
            proof {
                let g2 = crate::board::grid_of(cells@);
                assert forall|c: int|
                    0 <= c < w && c % 2 == 0 implies !(#[trigger] g2[0][c]).opens(Direction::North)
                    && !g2[h - 1][c].opens(Direction::South) by {
                    assert(g2[0][c] == g0[0][c]);
                    assert(g2[h - 1][c] == g0[h - 1][c]);
                }
                assert forall|r: int|
                    0 <= r < j + 1 && r % 2 == 0 implies !(#[trigger] g2[r][0]).opens(Direction::West)
                    && !g2[r][w - 1].opens(Direction::East) by {
                    if r < j {
                        assert(g2[r][0] == g0[r][0]);
                        assert(g2[r][w - 1] == g0[r][w - 1]);
                    }
                }
            }
        }
        j = j + 1;
    }
    proof {
        lemma_layout_settled(crate::board::grid_of(cells@), g_in, w, h);
    }
    cells
}

/// Each token's player has exactly one target cell on the board, and it is not under their token.
pub open spec fn one_target_each(b: &Board, upto: int) -> bool {
    forall|k: int|
        #![trigger b.player_tokens@[k]]
        0 <= k < upto ==> exists|q: (usize, usize)|
            targets_of(b, b.player_tokens@[k].player_id) == Set::<(usize, usize)>::empty().insert(q)
                && q != b.player_tokens@[k].position
}

/// Every target on the board belongs to one of the first `upto` tokens' players.
pub open spec fn targets_belong(b: &Board, upto: int) -> bool {
    forall|q: (usize, usize)|
        #[trigger] targeted_cells(b).contains(q) ==> exists|k: int|
            0 <= k < upto && b.cell(q).whose_target == Some(b.player_tokens@[k].player_id)
}

/// Whether the tile at `q` is the target of one of the first `j` tokens' players.
pub open spec fn earlier_target(b: &Board, q: (usize, usize), j: int) -> bool {
    exists|k: int| 0 <= k < j && b.cell(q).whose_target == Some(#[trigger] b.player_tokens@[k].player_id)
}

/// The cells that were free when the target of the `j`-th token was drawn, targets being handed
/// out in token order: on the board, away from the token, and not the target of an earlier
/// token.
pub open spec fn free_at_draw(b: &Board, j: int) -> Set<(usize, usize)> {
    Set::new(
        |q: (usize, usize)|
            b.in_bounds(q) && q != b.player_tokens@[j].position && !earlier_target(b, q, j),
    )
}

/// The cells the target of the `j`-th token was drawn from (as `Board::target_choices` has it):
/// the free cells out of the token's nearly reachable area when there are more free cells than
/// nearly reachable ones, all free cells otherwise.
pub open spec fn choices_at_draw(b: &Board, j: int) -> Set<(usize, usize)> {
    let all = free_at_draw(b, j);
    let easy = b.nearly_reachable_set(b.player_tokens@[j].position);
    if all.len() > easy.len() {
        all.difference(easy)
    } else {
        all
    }
}

/// The targets of the first `upto` tokens were each drawn from the choices of their time.
pub open spec fn targets_drawn_well(b: &Board, upto: int) -> bool {
    forall|j: int, q: (usize, usize)|
        0 <= j < upto && #[trigger] targets_of(b, b.player_tokens@[j].player_id).contains(q)
            ==> choices_at_draw(b, j).contains(q)
}

/// Drawing the target of the `k`-th token from its choices keeps every target drawn well.
proof fn lemma_drawn_well_step(b0: &Board, b1: &Board, q: (usize, usize), k: int)
    requires
        b0.rectangular(),
        b0.tokens_sorted(),
        b1.player_tokens@ == b0.player_tokens@,
        0 <= k < b0.player_tokens@.len(),
        b0.target_choices(b0.player_tokens@[k].position).contains(q),
        b1.grid() == with_target(b0.grid(), q, Some(b0.player_tokens@[k].player_id)),
        targets_belong(b0, k),
        targets_drawn_well(b0, k),
        targets_of(b0, b0.player_tokens@[k].player_id) == Set::<(usize, usize)>::empty(),
    ensures
        targets_drawn_well(b1, k + 1),
{
    let toks = b0.player_tokens@;
    let id = toks[k].player_id;
    let pos = toks[k].position;
    assert(b0.free_targets(pos).contains(q));
    assert(b0.in_bounds(q));
    crate::targets::lemma_with_target_cells(b0, b1, q, Some(id));
    assert forall|p: (usize, usize)| #[trigger] b1.in_bounds(p) implies b1.cell(p).shape == b0.cell(
        p,
    ).shape && b1.cell(p).orientation == b0.cell(p).orientation by {
        assert(b0.in_bounds(p));
    }
    // Which cells are earlier targets is the same before and after, for every token up to `k`.
    assert forall|x: (usize, usize), j: int|
        b0.in_bounds(x) && 0 <= j <= k implies #[trigger] earlier_target(b1, x, j) == earlier_target(
            b0,
            x,
            j,
        ) by {
        if x == q {
            assert(b0.cell(q).whose_target is None);
            if earlier_target(b1, x, j) {
                let i = choose|i: int| 0 <= i < j && b1.cell(x).whose_target == Some(#[trigger] b1.player_tokens@[i].player_id);
                assert(toks[i].player_id < toks[k].player_id);
            }
        } else {
            assert(b1.cell(x) == b0.cell(x));
            if earlier_target(b1, x, j) {
                let i = choose|i: int| 0 <= i < j && b1.cell(x).whose_target == Some(#[trigger] b1.player_tokens@[i].player_id);
                assert(b0.cell(x).whose_target == Some(b0.player_tokens@[i].player_id));
            }
            if earlier_target(b0, x, j) {
                let i = choose|i: int| 0 <= i < j && b0.cell(x).whose_target == Some(#[trigger] b0.player_tokens@[i].player_id);
                assert(b1.cell(x).whose_target == Some(b1.player_tokens@[i].player_id));
            }
        }
    }
    assert forall|j: int| 0 <= j <= k implies #[trigger] choices_at_draw(b1, j) == choices_at_draw(b0, j) by {
        assert(free_at_draw(b1, j) =~= free_at_draw(b0, j)) by {
            assert forall|x: (usize, usize)| free_at_draw(b1, j).contains(x) == free_at_draw(b0, j).contains(x) by {
                if b0.in_bounds(x) {
                    assert(earlier_target(b1, x, j) == earlier_target(b0, x, j));
                }
            }
        }
        b1.lemma_same_openings_same_nearly(b0, toks[j].position);
    }
    // The choices of the `k`-th token are those `target_choices` offered.
    assert(free_at_draw(b0, k) =~= b0.free_targets(pos)) by {
        assert forall|x: (usize, usize)| free_at_draw(b0, k).contains(x) == b0.free_targets(pos).contains(x) by {
            if b0.in_bounds(x) && b0.cell(x).whose_target is Some {
                assert(targeted_cells(b0).contains(x));
                let i = choose|i: int| 0 <= i < k && b0.cell(x).whose_target == Some(b0.player_tokens@[i].player_id);
                assert(earlier_target(b0, x, k));
            }
            if b0.in_bounds(x) && earlier_target(b0, x, k) {
                let i = choose|i: int| 0 <= i < k && b0.cell(x).whose_target == Some(#[trigger] b0.player_tokens@[i].player_id);
                assert(b0.cell(x).whose_target is Some);
            }
        }
    }
    assert(choices_at_draw(b0, k) == b0.target_choices(pos));
    assert forall|j: int, x: (usize, usize)|
        0 <= j < k + 1 && #[trigger] targets_of(b1, b1.player_tokens@[j].player_id).contains(x)
            implies choices_at_draw(b1, j).contains(x) by {
        assert(choices_at_draw(b1, j) == choices_at_draw(b0, j));
        if j < k {
            assert(toks[j].player_id < toks[k].player_id);
            if x == q {
                assert(b1.cell(q).whose_target == Some(id));
            } else {
                assert(b1.cell(x) == b0.cell(x));
                assert(targets_of(b0, b0.player_tokens@[j].player_id).contains(x));
            }
        } else {
            if x != q {
                assert(b1.cell(x) == b0.cell(x));
                assert(targets_of(b0, id).contains(x));
            }
        }
    }
}

/// When a player reaches their target (as `Board::player_reached_target` states it), the target
/// mark under their token goes and exactly one other tile, free before, becomes their target;
/// so a player whose one target was under their token again has exactly one target, elsewhere.
pub proof fn lemma_reached_target_moves_target(b0: &Board, b1: &Board, id: PlayerID)
    requires
        b0.wf(),
        b0.has_token(id),
        b0.in_bounds(b0.token_of(id).position),
        exists|q: (usize, usize)|
            #[trigger] b0.target_choices(b0.token_of(id).position).contains(q) && b1.grid() == with_target(
                with_target(b0.grid(), b0.token_of(id).position, None),
                q,
                Some(id),
            ),
    ensures
        exists|q: (usize, usize)|
            q != b0.token_of(id).position && b0.in_bounds(q) && b0.cell(q).whose_target is None
                && #[trigger] targets_of(b1, id) == targets_of(b0, id).remove(b0.token_of(id).position).insert(q),
        targets_of(b0, id) == set![b0.token_of(id).position] ==> exists|q: (usize, usize)|
            q != b0.token_of(id).position && #[trigger] targets_of(b1, id) == set![q],
{
    let pos = b0.token_of(id).position;
    let q = choose|q: (usize, usize)|
        #[trigger] b0.target_choices(pos).contains(q) && b1.grid() == with_target(
            with_target(b0.grid(), pos, None),
            q,
            Some(id),
        );
    lemma_next_target_is_the_draw(b0, b1, id, q);
    if targets_of(b0, id) == set![pos] {
        assert(targets_of(b1, id) =~= set![q]);
    }
}

/// The next target is the cell drawn (as `Board::reach_target_at` places it): whatever cell of
/// `target_choices` is drawn, away from the token and free before, it becomes the player's
/// target, in place of the one under their token.
pub proof fn lemma_next_target_is_the_draw(b0: &Board, b1: &Board, id: PlayerID, next: (usize, usize))
    requires
        b0.wf(),
        b0.has_token(id),
        b0.in_bounds(b0.token_of(id).position),
        b0.target_choices(b0.token_of(id).position).contains(next),
        b1.grid() == with_target(with_target(b0.grid(), b0.token_of(id).position, None), next, Some(id)),
    ensures
        next != b0.token_of(id).position,
        b0.in_bounds(next),
        b0.cell(next).whose_target is None,
        targets_of(b1, id) == targets_of(b0, id).remove(b0.token_of(id).position).insert(next),
{
    let pos = b0.token_of(id).position;
    let q = next;
    assert(b0.free_targets(pos).contains(q));
    let g0 = b0.grid();
    let g1 = with_target(g0, pos, None);
    assert(g0[0].len() == b0.width_spec()) by {
        assert(b0.cells@[0]@ == g0[0]);
    }
    assert(b1.grid().len() == g0.len());
    assert(b1.cells@.len() == b1.grid().len());
    assert(b1.cells@[0]@ == b1.grid()[0]);
    assert(b1.grid()[0].len() == g0[0].len());
    assert forall|x: (usize, usize)| #[trigger] b0.in_bounds(x) implies b1.cell(x) == if x == q {
        Tile { whose_target: Some(id), ..b0.cell(x) }
    } else if x == pos {
        Tile { whose_target: None, ..b0.cell(x) }
    } else {
        b0.cell(x)
    } by {
        assert(g0[x.0 as int].len() == b0.width_spec());
        assert(g1[x.0 as int].len() == b0.width_spec());
    }
    let after = targets_of(b0, id).remove(pos).insert(q);
    assert forall|x: (usize, usize)| #[trigger] targets_of(b1, id).contains(x) == after.contains(x) by {
        if b0.in_bounds(x) {
            assert(b1.cell(x) == if x == q {
                Tile { whose_target: Some(id), ..b0.cell(x) }
            } else if x == pos {
                Tile { whose_target: None, ..b0.cell(x) }
            } else {
                b0.cell(x)
            });
        }
    }
    assert(targets_of(b1, id) =~= after);
}

/// Every cell `target_choices` offers can be the next target: `target_candidates` lists each of
/// them, so the draw of an index below the list's length, made by
/// `Board::player_reached_target`, can land on any of them.
pub proof fn lemma_every_choice_can_be_drawn(
    b: &Board,
    pos: (usize, usize),
    cands: Seq<(usize, usize)>,
    q: (usize, usize),
)
    requires
        cands.to_set() == b.target_choices(pos),
        b.target_choices(pos).contains(q),
    ensures
        exists|k: int| 0 <= k < cands.len() && cands[k] == q,
{
    assert(cands.to_set().contains(q));
}

/// With `k` targets on a board of more than `k + 1` cells, some cell is free for a player
/// standing at `pos`.
proof fn lemma_free_cell_exists(b: &Board, pos: (usize, usize), k: int)
    requires
        b.rectangular(),
        b.width_spec() <= usize::MAX,
        b.height_spec() <= usize::MAX,
        targeted_cells(b).finite(),
        targeted_cells(b).len() == k,
        k + 1 < b.width_spec() * b.height_spec(),
    ensures
        exists|q: (usize, usize)| #[trigger] b.target_free(pos, q),
{
    let w = b.width_spec();
    let h = b.height_spec();
    let a = Set::new(|q: (usize, usize)| q.0 < h && q.1 < w);
    lemma_positions_len(w, h);
    let t = targeted_cells(b);
    if !exists|q: (usize, usize)| #[trigger] b.target_free(pos, q) {
        assert forall|q: (usize, usize)| a.contains(q) implies t.insert(pos).contains(q) by {
            if q != pos {
                assert(!b.target_free(pos, q));
            }
        }
        assert(a.subset_of(t.insert(pos)));
        vstd::set_lib::lemma_len_subset(a, t.insert(pos));
        assert(false);
    }
}

impl Board {
    /// What a fresh board of `width` by `height` tiles for `players` (in increasing order of ID)
    /// looks like: well formed; fixed bends in the corners; the outer tiles at even positions
    /// pointing inwards; the loose tile, without target, at a random edge and index, the index
    /// below half the height on the northern and southern edges and below half the width on
    /// the eastern and western ones (so on a board that is not square it may name no guide of
    /// its edge); one token per player, in order, with no score, the first four on the corners; and exactly one target
    /// per player, never under their own token, and no other targets, each drawn, in order of
    /// player, away from the player's nearly reachable area when there was room for it.
    pub open spec fn fresh(&self, width: int, height: int, players: Seq<Player>) -> bool {
        &&& self.wf()
        &&& self.width_spec() == width
        &&& self.height_spec() == height
        &&& corners_set(self.grid(), width, height)
        &&& edges_point_inward(self.grid(), width, height)
        &&& self.loose_tile.whose_target is None
        &&& match self.loose_tile_position.0 {
            Direction::North | Direction::South => self.loose_tile_position.1 < height / 2,
            Direction::East | Direction::West => self.loose_tile_position.1 < width / 2,
        }
        &&& self.player_tokens@.len() == players.len()
        &&& forall|i: int|
            #![trigger self.player_tokens@[i]]
            0 <= i < players.len() ==> {
                &&& self.player_tokens@[i].player_id == players[i].id
                &&& self.player_tokens@[i].score == 0
                &&& self.in_bounds(self.player_tokens@[i].position)
                &&& i < 4 ==> self.player_tokens@[i].position == start_corner(i, width, height)
            }
        &&& one_target_each(self, players.len() as int)
        &&& targets_belong(self, players.len() as int)
        &&& targeted_cells(self).finite()
        &&& targeted_cells(self).len() == players.len()
        &&& targets_drawn_well(self, players.len() as int)
        &&& self.tutorial_step is None
    }

    /// Creates a new board of the given size for the given players (in increasing order of ID):
    /// random tiles, with fixed bends in the corners and the outer tiles at even positions
    /// pointing inwards; the first four players start in the corners (top-left, bottom-right,
    /// top-right, bottom-left) and any others on random cells; the loose tile waits at a random
    /// edge and index (see `fresh`); and each player, in order of ID, gets a target drawn as
    /// `player_reached_target` draws one. In demonstration mode (`demo`, see `demo::is_demo`)
    /// the board is the fixed demonstration board instead, whatever the size asked for.
    pub fn new(width: usize, height: usize, players: &Vec<Player>, demo: bool) -> (r: Board)
        requires
            players_sorted(players@),
            demo ==> 1 <= players@.len() <= 4,
            !demo ==> width >= 2 && height >= 2 && players@.len() < width * height,
        ensures
            demo ==> demo::is_demo_board(r, players@),
            !demo ==> r.fresh(width as int, height as int, players@),
    {
        if demo {
            return demo::new_board(players);
        }
        let loose_tile = Tile::random();
        let cells = fresh_layout(width, height);
        // create tokens
        let mut player_tokens: Vec<PlayerToken> = Vec::new();
        let mut i: usize = 0;
        while i < players.len()
            invariant
                width >= 2,
                height >= 2,
                i <= players@.len(),
                player_tokens@.len() == i,
                forall|k: int|
                    #![trigger player_tokens@[k]]
                    0 <= k < i ==> {
                        &&& player_tokens@[k].player_id == players@[k].id
                        &&& player_tokens@[k].score == 0
                        &&& player_tokens@[k].position.0 < height
                        &&& player_tokens@[k].position.1 < width
                        &&& k < 4 ==> player_tokens@[k].position == start_corner(k, width as int, height as int)
                    },
            decreases players@.len() - i,
        {
            let position = if i == 0 {
                (0, 0)
            } else if i == 1 {
                (height - 1, width - 1)
            } else if i == 2 {
                (0, width - 1)
            } else if i == 3 {
                (height - 1, 0)
            } else {
                let row = rng::random_below(height);
                let col = rng::random_below(width);
                (row, col)
            };
            player_tokens.push(PlayerToken::new(&players[i], position));
            i = i + 1;
        }
        let loose_tile_edge = Direction::random();
        let loose_tile_spot = match loose_tile_edge {
            Direction::North | Direction::South => rng::random_below(height / 2),
            Direction::East | Direction::West => rng::random_below(width / 2),
        };
        let mut result = Board {
            cells,
            loose_tile,
            loose_tile_position: (loose_tile_edge, loose_tile_spot),
            player_tokens,
            tutorial_step: None,
        };
        let ghost w = width as int;
        let ghost h = height as int;
        let ghost toks = result.player_tokens@;
        proof {
            assert(result.cells@[0]@ == result.grid()[0]);
            assert(result.tokens_sorted());
            assert(targeted_cells(&result) =~= Set::empty());
            assert forall|j: int| 0 <= j < players@.len() implies #[trigger] targets_of(
                &result,
                toks[j].player_id,
            ) =~= Set::empty() by {}
        }
        // assign next locations
        let n = result.player_tokens.len();
        let mut k: usize = 0;
        while k < n
            invariant
                k <= n,
                n == players@.len(),
                n < w * h,
                result.wf(),
                result.width_spec() == w,
                result.height_spec() == h,
                w == width,
                h == height,
                corners_set(result.grid(), w, h),
                edges_point_inward(result.grid(), w, h),
                result.loose_tile == loose_tile,
                result.loose_tile.whose_target is None,
                result.loose_tile_position == (loose_tile_edge, loose_tile_spot),
                result.player_tokens@ == toks,
                toks.len() == n,
                forall|j: int|
                    #![trigger toks[j]]
                    0 <= j < n ==> {
                        &&& toks[j].player_id == players@[j].id
                        &&& toks[j].score == 0
                        &&& toks[j].position.0 < height
                        &&& toks[j].position.1 < width
                        &&& j < 4 ==> toks[j].position == start_corner(j, w, h)
                    },
                result.tutorial_step is None,
                targeted_cells(&result).finite(),
                targeted_cells(&result).len() == k,
                one_target_each(&result, k as int),
                targets_belong(&result, k as int),
                targets_drawn_well(&result, k as int),
                forall|j: int| k <= j < n ==> #[trigger] targets_of(&result, toks[j].player_id) == Set::<(usize, usize)>::empty(),
            decreases n - k,
        {
            let id = result.player_tokens[k].player_id;
            let ghost pos = toks[k as int].position;
            let ghost b0 = result;
            let ghost t0 = targeted_cells(&result);
            proof {
                result.lemma_token_index_unique(id, k as int);
                assert(result.token_of(id).position == pos);
                assert(result.in_bounds(pos));
                lemma_free_cell_exists(&result, pos, k as int);
                let q0 = choose|q: (usize, usize)| #[trigger] result.target_free(pos, q);
                assert(result.target_free(result.token_of(id).position, q0));
                assert(result.can_assign_target(id));
            }
            result.assign_next_target(id);
            proof {
                let q = choose|q: (usize, usize)|
                    #[trigger] b0.target_choices(pos).contains(q) && result.grid() == with_target(
                        b0.grid(),
                        q,
                        Some(id),
                    );
                assert(b0.free_targets(pos).contains(q));
                crate::targets::lemma_with_target_cells(&b0, &result, q, Some(id));
                lemma_drawn_well_step(&b0, &result, q, k as int);
                assert(targeted_cells(&result) =~= t0.insert(q));
                assert(!t0.contains(q));
                assert forall|j: int| #![trigger result.player_tokens@[j]] 0 <= j < k + 1 implies exists|
                    x: (usize, usize),
                | targets_of(&result, result.player_tokens@[j].player_id) == Set::<
                    (usize, usize),
                >::empty().insert(x) && x != result.player_tokens@[j].position by {
                    if j < k {
                        assert(toks[j].player_id < toks[k as int].player_id);
                        let x = choose|x: (usize, usize)|
                            targets_of(&b0, b0.player_tokens@[j].player_id) == Set::<
                                (usize, usize),
                            >::empty().insert(x) && x != b0.player_tokens@[j].position;
                        assert(targets_of(&result, toks[j].player_id) =~= targets_of(
                            &b0,
                            toks[j].player_id,
                        ));
                    } else {
                        assert(targets_of(&b0, toks[k as int].player_id) == Set::<
                            (usize, usize),
                        >::empty());
                        assert(targets_of(&result, toks[j].player_id) =~= Set::<
                            (usize, usize),
                        >::empty().insert(q));
                    }
                }
                assert forall|x: (usize, usize)| #[trigger] targeted_cells(&result).contains(x) implies exists|
                    j: int,
                | 0 <= j < k + 1 && result.cell(x).whose_target == Some(
                    result.player_tokens@[j].player_id,
                ) by {
                    if x == q {
                        assert(result.cell(x).whose_target == Some(result.player_tokens@[k as int].player_id));
                    } else {
                        assert(t0.contains(x));
                        let j = choose|j: int|
                            0 <= j < k && b0.cell(x).whose_target == Some(
                                b0.player_tokens@[j].player_id,
                            );
                        assert(result.cell(x).whose_target == Some(result.player_tokens@[j].player_id));
                    }
                }
                assert forall|j: int| k + 1 <= j < n implies #[trigger] targets_of(
                    &result,
                    toks[j].player_id,
                ) == Set::<(usize, usize)>::empty() by {
                    assert(toks[k as int].player_id < toks[j].player_id);
                    assert(targets_of(&result, toks[j].player_id) =~= targets_of(
                        &b0,
                        toks[j].player_id,
                    ));
                }
                assert forall|c: int| 0 <= c < w && c % 2 == 0 implies !(#[trigger] result.grid()[0][c]).opens(
                    Direction::North,
                ) && !result.grid()[h - 1][c].opens(Direction::South) by {
                    assert(result.grid()[0][c].path_seq() == b0.grid()[0][c].path_seq());
                    assert(result.grid()[h - 1][c].path_seq() == b0.grid()[h - 1][c].path_seq());
                }
                assert forall|r: int| 0 <= r < h && r % 2 == 0 implies !(#[trigger] result.grid()[r][0]).opens(
                    Direction::West,
                ) && !result.grid()[r][w - 1].opens(Direction::East) by {
                    assert(result.grid()[r][0].path_seq() == b0.grid()[r][0].path_seq());
                    assert(result.grid()[r][w - 1].path_seq() == b0.grid()[r][w - 1].path_seq());
                }
            }
            k = k + 1;
        }
        result
    }
}

} // verus!
