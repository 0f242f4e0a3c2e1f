//! Targets: choosing the next cell each player must reach.

use vstd::prelude::*;

use crate::board::{Board, PlayerToken};
use crate::player::PlayerID;
use crate::reach::{marks_of, marks_ok};
use crate::rng;
use crate::tile::{move_fits, step_spec, Direction, Tile};

verus! {

/// The grid with the target mark of the tile at `q` replaced by `id`.
pub open spec fn with_target(g: Seq<Seq<Tile>>, q: (usize, usize), id: Option<PlayerID>) -> Seq<Seq<Tile>> {
    g.update(q.0 as int, g[q.0 as int].update(q.1 as int, Tile { whose_target: id, ..g[q.0 as int][q.1 as int] }))
}

/// Setting the target mark of one tile keeps the board's dimensions and every other tile.
pub proof fn lemma_with_target_cells(b0: &Board, b1: &Board, q: (usize, usize), id: Option<PlayerID>)
    requires
        b0.rectangular(),
        b0.in_bounds(q),
        b1.grid() == with_target(b0.grid(), q, id),
    ensures
        b1.rectangular(),
        b1.width_spec() == b0.width_spec(),
        b1.height_spec() == b0.height_spec(),
        forall|p: (usize, usize)|
            b0.in_bounds(p) ==> #[trigger] b1.cell(p) == if p == q {
                Tile { whose_target: id, ..b0.cell(q) }
            } else {
                b0.cell(p)
            },
        forall|r: int, c: int|
            0 <= r < b0.height_spec() && 0 <= c < b0.width_spec() ==> (#[trigger] b1.grid()[r][c]).shape
                == b0.grid()[r][c].shape && b1.grid()[r][c].orientation == b0.grid()[r][c].orientation,
{
    assert(b1.cells@.len() == b1.grid().len());
    assert(b1.cells@[0]@ == b1.grid()[0]);
    assert(b0.cells@[0]@ == b0.grid()[0]);
    assert(b1.grid()[0].len() == b0.grid()[0].len());
}

impl Board {
    /// `q` may become a target for the player standing at `pos`: it is on the board, it is not
    /// `pos`, and it is nobody's target yet.
    pub open spec fn target_free(&self, pos: (usize, usize), q: (usize, usize)) -> bool {
        &&& self.in_bounds(q)
        &&& q != pos
        &&& self.cell(q).whose_target is None
    }

    /// All cells that may become a target for a player standing at `pos`.
    pub open spec fn free_targets(&self, pos: (usize, usize)) -> Set<(usize, usize)> {
        Set::new(|q: (usize, usize)| self.target_free(pos, q))
    }

    /// The cells the next target is drawn from: the free cells that are not nearly reachable from
    /// `pos`, when there are more free cells than nearly reachable ones; all free cells otherwise.
    pub open spec fn target_choices(&self, pos: (usize, usize)) -> Set<(usize, usize)> {
        let all = self.free_targets(pos);
        let easy = self.nearly_reachable_set(pos);
        if all.len() > easy.len() {
            all.difference(easy)
        } else {
            all
        }
    }

    /// The free cells, row by row.
    pub(crate) fn free_cells(&self, pos: (usize, usize)) -> (r: Vec<(usize, usize)>)
        requires
            self.rectangular(),
        ensures
            r@.no_duplicates(),
            r@.to_set() == self.free_targets(pos),
    {
        let w = self.width();
        let h = self.height();
        let mut r: Vec<(usize, usize)> = Vec::new();
        let mut row: usize = 0;
        while row < h
            invariant
                self.rectangular(),
                w == self.width_spec(),
                h == self.height_spec(),
                row <= h,
                r@.no_duplicates(),
                forall|k: int| 0 <= k < r@.len() ==> (#[trigger] r@[k]).0 < row,
                forall|q: (usize, usize)|
                    #[trigger] r@.contains(q) <==> self.target_free(pos, q) && q.0 < row,
            decreases h - row,
        {
            proof {
                assert(self.cells@[row as int]@.len() == self.grid()[row as int].len());
            }
            let mut col: usize = 0;
            while col < w
                invariant
                    self.rectangular(),
                    w == self.width_spec(),
                    h == self.height_spec(),
                    row < h,
                    col <= w,
                    self.cells@[row as int]@.len() == w,
                    r@.no_duplicates(),
                    forall|k: int|
                        0 <= k < r@.len() ==> (#[trigger] r@[k]).0 < row || (r@[k].0 == row
                            && r@[k].1 < col),
                    forall|q: (usize, usize)|
                        #[trigger] r@.contains(q) <==> self.target_free(pos, q) && (q.0 < row || (
                        q.0 == row && q.1 < col)),
                decreases w - col,
            {
                let ghost rb = r@;
                let t = self.cells[row][col];
                assert(t == self.cell((row, col)));
                if (row != pos.0 || col != pos.1) && t.whose_target.is_none() {
                    proof {
                        assert(!rb.contains((row, col))) by {
                            if rb.contains((row, col)) {
                                let k = choose|k: int| 0 <= k < rb.len() && rb[k] == (row, col);
                            }
                        }
                    }
                    r.push((row, col));
                    proof {
                        assert forall|q: (usize, usize)| #[trigger] r@.contains(q) <==> self.target_free(
                            pos,
                            q,
                        ) && (q.0 < row || (q.0 == row && q.1 < col + 1)) by {
                            if r@.contains(q) && q != (row, col) {
                                let k = choose|k: int| 0 <= k < r@.len() && r@[k] == q;
                                assert(rb[k] == q);
                            }
                            if rb.contains(q) {
                                let k = choose|k: int| 0 <= k < rb.len() && rb[k] == q;
                                assert(r@[k] == q);
                            }
                            if q == (row, col) {
                                assert(r@[r@.len() - 1] == q);
                            }
                        }
                    }
                }
                col = col + 1;
            }
            row = row + 1;
        }
        proof {
            assert forall|q: (usize, usize)| #[trigger] r@.to_set().contains(q) == self.free_targets(
                pos,
            ).contains(q) by {}
            assert(r@.to_set() =~= self.free_targets(pos));
        }
        r
    }

    /// The cells the next target of a player standing at `pos` is drawn from, without repeats
    /// (see `target_choices`).
    pub fn target_candidates(&self, pos: (usize, usize)) -> (r: Vec<(usize, usize)>)
        requires
            self.rectangular(),
            self.in_bounds(pos),
        ensures
            r@.no_duplicates(),
            r@.to_set() == self.target_choices(pos),
            (exists|q: (usize, usize)| #[trigger] self.target_free(pos, q)) ==> r@.len() > 0,
    {
        let (easy, marks) = self.nearly_reachable_marks(pos);
        let all = self.free_cells(pos);
        proof {
            easy@.unique_seq_to_set();
            all@.unique_seq_to_set();
        }
        if all.len() > easy.len() {
            let ghost es = self.nearly_reachable_set(pos);
            let mut v: Vec<(usize, usize)> = Vec::new();
            let mut k: usize = 0;
            while k < all.len()
                invariant
                    self.rectangular(),
                    k <= all@.len(),
                    all@.no_duplicates(),
                    all@.to_set() == self.free_targets(pos),
                    marks_ok(easy@, marks_of(marks@), self.width_spec(), self.height_spec()),
                    easy@.to_set() == es,
                    v@.no_duplicates(),
                    forall|q: (usize, usize)|
                        #[trigger] v@.contains(q) <==> (all@.subrange(0, k as int).contains(q)
                            && !es.contains(q)),
                decreases all@.len() - k,
            {
                let q = all[k];
                let ghost vb = v@;
                proof {
                    assert(all@.to_set().contains(q));
                    assert(marks_of(marks@)[q.0 as int] == marks@[q.0 as int]@);
                    assert(all@.subrange(0, k + 1) =~= all@.subrange(0, k as int).push(q));
                }
                let pushed = !marks[q.0][q.1];
                if pushed {
                    proof {
                        assert(!all@.subrange(0, k as int).contains(q)) by {
                            if all@.subrange(0, k as int).contains(q) {
                                let j = choose|j: int|
                                    0 <= j < k && all@.subrange(0, k as int)[j] == q;
                                assert(all@[j] == all@[k as int]);
                            }
                        }
                        assert(!vb.contains(q));
                    }
                    v.push(q);
                } else {
                    proof {
                        assert(es.contains(q));
                    }
                }
                proof {
                    let s0 = all@.subrange(0, k as int);
                    let s1 = all@.subrange(0, k + 1);
                    assert(pushed ==> v@ == vb.push(q));
                    assert(!pushed ==> v@ == vb);
                    assert(pushed == !es.contains(q));
                    assert forall|x: (usize, usize)| #[trigger] v@.contains(x) <==> (s1.contains(x)
                        && !es.contains(x)) by {
                        if s1.contains(x) {
                            let j = choose|j: int| 0 <= j < s1.len() && s1[j] == x;
                            if j < k {
                                assert(s0[j] == x);
                            } else {
                                assert(x == q);
                            }
                        }
                        if s0.contains(x) {
                            let j = choose|j: int| 0 <= j < s0.len() && s0[j] == x;
                            assert(s1[j] == x);
                        }
                        assert(s1[k as int] == q);
                        if v@.contains(x) {
                            let j = choose|j: int| 0 <= j < v@.len() && v@[j] == x;
                            if j < vb.len() {
                                assert(vb[j] == x);
                            }
                        }
                        if vb.contains(x) {
                            let j = choose|j: int| 0 <= j < vb.len() && vb[j] == x;
                            assert(v@[j] == x);
                        }
                        if pushed && x == q {
                            assert(v@[v@.len() - 1] == q);
                        }
                    }
                }
                k = k + 1;
            }
            proof {
                assert(all@.subrange(0, all@.len() as int) =~= all@);
                assert(v@.to_set() =~= self.target_choices(pos));
                let a = self.free_targets(pos);
                if v@.len() == 0 {
                    assert forall|x: (usize, usize)| a.contains(x) implies es.contains(x) by {
                        assert(all@.to_set().contains(x));
                        if !es.contains(x) {
                            assert(v@.contains(x));
                        }
                    }
                    assert(a.subset_of(es));
                    vstd::set_lib::lemma_len_subset(a, es);
                }
            }
            v
        } else {
            proof {
                if exists|q: (usize, usize)| #[trigger] self.target_free(pos, q) {
                    let q = choose|q: (usize, usize)| #[trigger] self.target_free(pos, q);
                    assert(all@.to_set().contains(q));
                }
            }
            all
        }
    }

    /// The player's position is on the board, and some cell may become their next target.
    pub open spec fn can_assign_target(&self, player_id: PlayerID) -> bool {
        &&& self.has_token(player_id)
        &&& self.in_bounds(self.token_of(player_id).position)
        &&& exists|q: (usize, usize)| #[trigger] self.target_free(self.token_of(player_id).position, q)
    }

    /// Every cell reachable from a cell on the board is on the board.
    pub proof fn lemma_reachable_in_bounds(&self, from: (usize, usize), to: (usize, usize))
        requires
            self.width_spec() <= usize::MAX,
            self.height_spec() <= usize::MAX,
            self.reachable(from, to),
        ensures
            self.in_bounds(to),
    {
        let path = choose|path: Seq<(usize, usize)>|
            #[trigger] self.is_path(path) && path[0] == from && path.last() == to;
        if path.len() > 1 {
            let i = path.len() - 2;
            assert(self.adjacent(path[i], path[i + 1]));
        }
    }

    /// Two boards with the same tiles offer the same cells as a next target.
    pub proof fn lemma_same_tiles_same_choices(&self, other: &Board, pos: (usize, usize))
        requires
            self.cells@ == other.cells@,
        ensures
            self.target_choices(pos) == other.target_choices(pos),
    {
        assert(self.grid() == other.grid());
        assert forall|p: (usize, usize), q: (usize, usize)| #[trigger] self.adjacent(p, q)
            == other.adjacent(p, q) by {}
        assert forall|path: Seq<(usize, usize)>| #[trigger] self.is_path(path) == other.is_path(
            path,
        ) by {
            if self.is_path(path) {
                assert forall|i: int| 0 <= i < path.len() - 1 implies other.adjacent(
                    #[trigger] path[i],
                    path[i + 1],
                ) by {
                    assert(self.adjacent(path[i], path[i + 1]));
                }
            }
            if other.is_path(path) {
                assert forall|i: int| 0 <= i < path.len() - 1 implies self.adjacent(
                    #[trigger] path[i],
                    path[i + 1],
                ) by {
                    assert(other.adjacent(path[i], path[i + 1]));
                }
            }
        }
        assert forall|a: (usize, usize), b: (usize, usize)| #[trigger] self.reachable(a, b)
            == other.reachable(a, b) by {
            if self.reachable(a, b) {
                let path = choose|path: Seq<(usize, usize)>|
                    #[trigger] self.is_path(path) && path[0] == a && path.last() == b;
                assert(other.is_path(path));
            }
            if other.reachable(a, b) {
                let path = choose|path: Seq<(usize, usize)>|
                    #[trigger] other.is_path(path) && path[0] == a && path.last() == b;
                assert(self.is_path(path));
            }
        }
        assert forall|p: (usize, usize), s: (usize, usize)| #[trigger] self.neighbor(p, s)
            == other.neighbor(p, s) by {}
        assert forall|s: (usize, usize)| #[trigger] self.near_seed(pos, s) == other.near_seed(
            pos,
            s,
        ) by {
            if self.near_seed(pos, s) && s != pos {
                let p = choose|p: (usize, usize)| #[trigger] self.reachable(pos, p) && self.neighbor(p, s);
                assert(other.reachable(pos, p));
            }
            if other.near_seed(pos, s) && s != pos {
                let p = choose|p: (usize, usize)| #[trigger] other.reachable(pos, p) && other.neighbor(p, s);
                assert(self.reachable(pos, p));
            }
        }
        assert forall|q: (usize, usize)| #[trigger] self.nearly_reachable_set(pos).contains(q)
            == other.nearly_reachable_set(pos).contains(q) by {
            if self.nearly_reachable_set(pos).contains(q) {
                let s = choose|s: (usize, usize)| #[trigger] self.near_seed(pos, s) && self.reachable(s, q);
                assert(other.near_seed(pos, s) && other.reachable(s, q));
            }
            if other.nearly_reachable_set(pos).contains(q) {
                let s = choose|s: (usize, usize)| #[trigger] other.near_seed(pos, s) && other.reachable(s, q);
                assert(self.near_seed(pos, s) && self.reachable(s, q));
            }
        }
        assert(self.nearly_reachable_set(pos) =~= other.nearly_reachable_set(pos));
        assert(self.free_targets(pos) =~= other.free_targets(pos));
    }

    /// Two boards of the same size whose tiles differ at most in their target marks have the same
    /// nearly reachable cells.
    pub(crate) proof fn lemma_same_openings_same_nearly(&self, other: &Board, pos: (usize, usize))
        requires
            self.width_spec() == other.width_spec(),
            self.height_spec() == other.height_spec(),
            forall|p: (usize, usize)|
                #![trigger self.cell(p)]
                self.in_bounds(p) ==> self.cell(p).shape == other.cell(p).shape
                    && self.cell(p).orientation == other.cell(p).orientation,
        ensures
            self.nearly_reachable_set(pos) == other.nearly_reachable_set(pos),
    {
        assert forall|p: (usize, usize), d: Direction| #[trigger] self.edge(p, d) == other.edge(p, d) by {
            if self.in_bounds(p) && move_fits(p, d, self.dims()) {
                let q = step_spec(p, d);
                assert(self.in_bounds(q));
                assert(self.cell(p).path_seq() == other.cell(p).path_seq());
                assert(self.cell(q).path_seq() == other.cell(q).path_seq());
            }
        }
        assert forall|p: (usize, usize), q: (usize, usize)| #[trigger] self.adjacent(p, q)
            == other.adjacent(p, q) by {
            assert(self.edge(p, Direction::North) == other.edge(p, Direction::North));
            assert(self.edge(p, Direction::South) == other.edge(p, Direction::South));
            assert(self.edge(p, Direction::East) == other.edge(p, Direction::East));
            assert(self.edge(p, Direction::West) == other.edge(p, Direction::West));
        }
        assert forall|path: Seq<(usize, usize)>| #[trigger] self.is_path(path) == other.is_path(
            path,
        ) by {
            if self.is_path(path) {
                assert forall|i: int| 0 <= i < path.len() - 1 implies other.adjacent(
                    #[trigger] path[i],
                    path[i + 1],
                ) by {
                    assert(self.adjacent(path[i], path[i + 1]));
                }
            }
            if other.is_path(path) {
                assert forall|i: int| 0 <= i < path.len() - 1 implies self.adjacent(
                    #[trigger] path[i],
                    path[i + 1],
                ) by {
                    assert(other.adjacent(path[i], path[i + 1]));
                }
            }
        }
        assert forall|a: (usize, usize), b: (usize, usize)| #[trigger] self.reachable(a, b)
            == other.reachable(a, b) by {
            if self.reachable(a, b) {
                let path = choose|path: Seq<(usize, usize)>|
                    #[trigger] self.is_path(path) && path[0] == a && path.last() == b;
                assert(other.is_path(path));
            }
            if other.reachable(a, b) {
                let path = choose|path: Seq<(usize, usize)>|
                    #[trigger] other.is_path(path) && path[0] == a && path.last() == b;
                assert(self.is_path(path));
            }
        }
        assert forall|p: (usize, usize), s: (usize, usize)| #[trigger] self.neighbor(p, s)
            == other.neighbor(p, s) by {}
        assert forall|s: (usize, usize)| #[trigger] self.near_seed(pos, s) == other.near_seed(
            pos,
            s,
        ) by {
            if self.near_seed(pos, s) && s != pos {
                let p = choose|p: (usize, usize)| #[trigger] self.reachable(pos, p) && self.neighbor(p, s);
                assert(other.reachable(pos, p));
            }
            if other.near_seed(pos, s) && s != pos {
                let p = choose|p: (usize, usize)| #[trigger] other.reachable(pos, p) && other.neighbor(p, s);
                assert(self.reachable(pos, p));
            }
        }
        assert forall|q: (usize, usize)| #[trigger] self.nearly_reachable_set(pos).contains(q)
            == other.nearly_reachable_set(pos).contains(q) by {
            if self.nearly_reachable_set(pos).contains(q) {
                let s = choose|s: (usize, usize)| #[trigger] self.near_seed(pos, s) && self.reachable(s, q);
                assert(other.near_seed(pos, s) && other.reachable(s, q));
            }
            if other.nearly_reachable_set(pos).contains(q) {
                let s = choose|s: (usize, usize)| #[trigger] other.near_seed(pos, s) && other.reachable(s, q);
                assert(self.near_seed(pos, s) && self.reachable(s, q));
            }
        }
        assert(self.nearly_reachable_set(pos) =~= other.nearly_reachable_set(pos));
    }

    /// Picks the player's next target uniformly among `target_choices` of their position.
    pub(crate) fn assign_next_target(&mut self, player_id: PlayerID)
        requires
            old(self).wf(),
            old(self).can_assign_target(player_id),
        ensures
            final(self).wf(),
            exists|q: (usize, usize)|
                #[trigger] old(self).target_choices(old(self).token_of(player_id).position).contains(q)
                    && final(self).grid() == with_target(old(self).grid(), q, Some(player_id)),
            final(self).player_tokens@ == old(self).player_tokens@,
            final(self).loose_tile == old(self).loose_tile,
            final(self).loose_tile_position == old(self).loose_tile_position,
            final(self).tutorial_step == old(self).tutorial_step,
    {
        let pos = self.player_pos(player_id);
        let cands = self.target_candidates(pos);
        let k = rng::random_below(cands.len());
        let (row, col) = cands[k];
        proof {
            assert(cands@.to_set().contains(cands@[k as int]));
            assert(self.free_targets(pos).contains((row, col)));
        }
        self.set_target((row, col), Some(player_id));
    }

    /// Marks the tile at `q` as the target of `id` (or of nobody).
    fn set_target(&mut self, q: (usize, usize), id: Option<PlayerID>)
        requires
            old(self).wf(),
            old(self).in_bounds(q),
        ensures
            final(self).wf(),
            final(self).grid() == with_target(old(self).grid(), q, id),
            final(self).player_tokens@ == old(self).player_tokens@,
            final(self).loose_tile == old(self).loose_tile,
            final(self).loose_tile_position == old(self).loose_tile_position,
            final(self).tutorial_step == old(self).tutorial_step,
    {
        let ghost g0 = self.grid();
        proof {
            assert(self.cells@[q.0 as int]@.len() == self.grid()[q.0 as int].len());
        }
        let t = self.cells[q.0][q.1];
        self.cells[q.0][q.1] = Tile { whose_target: id, ..t };
        proof {
            assert(self.grid() =~= with_target(g0, q, id));
            assert(self.grid()[0].len() == g0[0].len());
        }
    }

    /// The player may be credited with reaching their target: their position is on the board,
    /// their score can grow, and some cell may become their next target.
    pub open spec fn reach_target_ok(&self, player_id: PlayerID) -> bool {
        self.has_token(player_id) ==> {
            &&& self.can_assign_target(player_id)
            &&& self.token_of(player_id).score < 255
        }
    }

    /// Indicates that the given player has reached their target: the target mark under their
    /// token is removed, their score goes up by one, and a new target is drawn from
    /// `target_choices` of their position. Nothing happens for a player without a token.
    pub fn player_reached_target(&mut self, player_id: PlayerID)
        requires
            old(self).wf(),
            old(self).reach_target_ok(player_id),
        ensures
            final(self).wf(),
            final(self).loose_tile == old(self).loose_tile,
            final(self).loose_tile_position == old(self).loose_tile_position,
            final(self).tutorial_step == old(self).tutorial_step,
            !old(self).has_token(player_id) ==> final(self).grid() == old(self).grid()
                && final(self).player_tokens@ == old(self).player_tokens@,
            old(self).has_token(player_id) ==> {
                let tok = old(self).token_of(player_id);
                &&& final(self).player_tokens@ == old(self).player_tokens@.update(
                    old(self).token_index_spec(player_id),
                    PlayerToken { score: (tok.score + 1) as u8, ..tok },
                )
                &&& exists|q: (usize, usize)|
                    #[trigger] old(self).target_choices(tok.position).contains(q) && final(self).grid()
                        == with_target(with_target(old(self).grid(), tok.position, None), q, Some(player_id))
            },
    {
        match self.token_index(player_id) {
            Some(i) => {
                let pos = self.player_tokens[i].position;
                let cands = self.target_candidates(pos);
                let k = rng::random_below(cands.len());
                let q = cands[k];
                proof {
                    assert(cands@.to_set().contains(cands@[k as int]));
                }
                self.reach_target_at(player_id, q);
            },
            None => {},
        }
    }

    /// Credits the player with reaching their target, with `next` drawn as their next target
    /// (one of `target_choices` of their position): the target mark under their token is
    /// removed, their score goes up by one, and `next` becomes their target.
    pub fn reach_target_at(&mut self, player_id: PlayerID, next: (usize, usize))
        requires
            old(self).wf(),
            old(self).has_token(player_id),
            old(self).reach_target_ok(player_id),
            old(self).target_choices(old(self).token_of(player_id).position).contains(next),
        ensures
            final(self).wf(),
            final(self).loose_tile == old(self).loose_tile,
            final(self).loose_tile_position == old(self).loose_tile_position,
            final(self).tutorial_step == old(self).tutorial_step,
            ({
                let tok = old(self).token_of(player_id);
                &&& final(self).player_tokens@ == old(self).player_tokens@.update(
                    old(self).token_index_spec(player_id),
                    PlayerToken { score: (tok.score + 1) as u8, ..tok },
                )
                &&& final(self).grid() == with_target(
                    with_target(old(self).grid(), tok.position, None),
                    next,
                    Some(player_id),
                )
            }),
    {
        match self.token_index(player_id) {
            Some(i) => {
                let tok = self.player_tokens[i];
                let pos = tok.position;
                self.set_target(pos, None);
                self.player_tokens.set(i, PlayerToken { score: tok.score + 1, ..tok });
                proof {
                    assert forall|a: int, b: int|
                        0 <= a < b < self.player_tokens@.len() implies #[trigger] self.player_tokens@[a].player_id
                        < #[trigger] self.player_tokens@[b].player_id by {}
                    assert(old(self).free_targets(pos).contains(next));
                    assert(self.grid().len() == old(self).grid().len());
                    assert(self.grid()[0].len() == old(self).grid()[0].len());
                    assert(self.cells@[0]@ == self.grid()[0]);
                    assert(old(self).cells@[0]@ == old(self).grid()[0]);
                }
                self.set_target(next, Some(player_id));
            },
            None => {
                proof {
                    assert(false);
                }
            },
        }
    }
}

} // verus!
