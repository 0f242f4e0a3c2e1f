//! Reachability through the maze: which cells a token can walk to.

use vstd::prelude::*;

use crate::board::{valid_move, Board};
use crate::tile::{move_fits, step, step_spec, Direction};

verus! {

/// Number of `true` entries.
pub open spec fn count_true(s: Seq<bool>) -> nat
    decreases s.len(),
{
    if s.len() == 0 {
        0
    } else {
        count_true(s.drop_last()) + if s.last() {
            1nat
        } else {
            0nat
        }
    }
}

/// Number of `true` entries over all rows.
pub open spec fn count_grid(g: Seq<Seq<bool>>) -> nat
    decreases g.len(),
{
    if g.len() == 0 {
        0
    } else {
        count_grid(g.drop_last()) + count_true(g.last())
    }
}

proof fn lemma_count_true_le(s: Seq<bool>)
    ensures
        count_true(s) <= s.len(),
    decreases s.len(),
{
    if s.len() > 0 {
        lemma_count_true_le(s.drop_last());
    }
}

proof fn lemma_count_true_update(s: Seq<bool>, i: int)
    requires
        0 <= i < s.len(),
        !s[i],
    ensures
        count_true(s.update(i, true)) == count_true(s) + 1,
    decreases s.len(),
{
    let s2 = s.update(i, true);
    if i == s.len() - 1 {
        assert(s2.drop_last() =~= s.drop_last());
    } else {
        lemma_count_true_update(s.drop_last(), i);
        assert(s2.drop_last() =~= s.drop_last().update(i, true));
    }
}

proof fn lemma_count_true_push_false(s: Seq<bool>)
    ensures
        count_true(s.push(false)) == count_true(s),
{
    assert(s.push(false).drop_last() =~= s);
}

proof fn lemma_count_grid_le(g: Seq<Seq<bool>>, w: int)
    requires
        forall|r: int| 0 <= r < g.len() ==> #[trigger] g[r].len() == w,
        w >= 0,
    ensures
        count_grid(g) <= g.len() * w,
    decreases g.len(),
{
    if g.len() > 0 {
        lemma_count_grid_le(g.drop_last(), w);
        lemma_count_true_le(g.last());
        let n = g.len() as int;
        assert((n - 1) * w + w == n * w) by (nonlinear_arith);
    }
}

proof fn lemma_count_grid_update(g: Seq<Seq<bool>>, r: int, c: int)
    requires
        0 <= r < g.len(),
        0 <= c < g[r].len(),
        !g[r][c],
    ensures
        count_grid(g.update(r, g[r].update(c, true))) == count_grid(g) + 1,
    decreases g.len(),
{
    let g2 = g.update(r, g[r].update(c, true));
    if r == g.len() - 1 {
        assert(g2.drop_last() =~= g.drop_last());
        lemma_count_true_update(g[r], c);
    } else {
        lemma_count_grid_update(g.drop_last(), r, c);
        assert(g2.drop_last() =~= g.drop_last().update(r, g[r].update(c, true)));
    }
}

proof fn lemma_count_grid_push_unmarked(g: Seq<Seq<bool>>, row: Seq<bool>)
    requires
        count_true(row) == 0,
    ensures
        count_grid(g.push(row)) == count_grid(g),
{
    assert(g.push(row).drop_last() =~= g);
}

/// Facts about a sequence that starts with another one.
proof fn lemma_prefix<A>(big: Seq<A>, small: Seq<A>)
    requires
        small.len() <= big.len(),
        big.subrange(0, small.len() as int) == small,
    ensures
        forall|j: int| 0 <= j < small.len() ==> #[trigger] small[j] == big[j],
        forall|x: A| small.contains(x) ==> big.contains(x),
{
    assert forall|j: int| 0 <= j < small.len() implies #[trigger] small[j] == big[j] by {
        assert(big.subrange(0, small.len() as int)[j] == big[j]);
    }
    assert forall|x: A| small.contains(x) implies big.contains(x) by {
        let j = choose|j: int| 0 <= j < small.len() && small[j] == x;
        assert(big[j] == x);
    }
}

/// The marks of a vector of rows.
pub open spec fn marks_of(v: Seq<Vec<bool>>) -> Seq<Seq<bool>> {
    v.map_values(|row: Vec<bool>| row@)
}

/// `result` lists distinct in-bound cells, and `marks` (a `h` by `w` grid) marks exactly them.
pub open spec fn marks_ok(result: Seq<(usize, usize)>, marks: Seq<Seq<bool>>, w: int, h: int) -> bool {
    &&& marks.len() == h
    &&& forall|r: int| 0 <= r < h ==> #[trigger] marks[r].len() == w
    &&& result.no_duplicates()
    &&& forall|k: int| 0 <= k < result.len() ==> #[trigger] result[k].0 < h && result[k].1 < w
    &&& forall|p: (usize, usize)|
        #![trigger marks[p.0 as int][p.1 as int]]
        #![trigger result.contains(p)]
        p.0 < h && p.1 < w ==> (marks[p.0 as int][p.1 as int] <==> result.contains(p))
    &&& count_grid(marks) == result.len()
}

/// A fresh `h` by `w` grid of unset marks.
fn new_marks(w: usize, h: usize) -> (r: Vec<Vec<bool>>)
    ensures
        marks_ok(Seq::empty(), marks_of(r@), w as int, h as int),
{
    let mut rows: Vec<Vec<bool>> = Vec::new();
    let mut j: usize = 0;
    while j < h
        invariant
            j <= h,
            rows@.len() == j,
            forall|r: int| 0 <= r < j ==> #[trigger] rows@[r]@.len() == w,
            forall|r: int, c: int| 0 <= r < j && 0 <= c < w ==> !#[trigger] rows@[r]@[c],
            count_grid(marks_of(rows@)) == 0,
        decreases h - j,
    {
        let mut row: Vec<bool> = Vec::new();
        let mut i: usize = 0;
        while i < w
            invariant
                i <= w,
                row@.len() == i,
                forall|c: int| 0 <= c < i ==> !#[trigger] row@[c],
                count_true(row@) == 0,
            decreases w - i,
        {
            proof {
                lemma_count_true_push_false(row@);
            }
            row.push(false);
            i = i + 1;
        }
        proof {
            lemma_count_grid_push_unmarked(marks_of(rows@), row@);
            assert(marks_of(rows@.push(row)) =~= marks_of(rows@).push(row@));
        }
        rows.push(row);
        j = j + 1;
    }
    proof {
        let m = marks_of(rows@);
        assert forall|r: int| 0 <= r < h implies #[trigger] m[r].len() == w by {
            assert(m[r] == rows@[r]@);
        }
        assert forall|p: (usize, usize)| p.0 < h && p.1 < w implies (m[p.0 as int][p.1 as int]
            <==> Seq::<(usize, usize)>::empty().contains(p)) by {
            assert(m[p.0 as int] == rows@[p.0 as int]@);
        }
    }
    rows
}

impl Board {
    /// An open connection from `p` towards `d`: the move stays on the board, the tile at `p` is
    /// open towards `d`, and the neighbouring tile is open back towards `p`.
    pub open spec fn edge(&self, p: (usize, usize), d: Direction) -> bool {
        &&& self.in_bounds(p)
        &&& move_fits(p, d, self.dims())
        &&& self.cell(p).opens(d)
        &&& self.cell(step_spec(p, d)).opens(d.opposite())
    }

    /// `q` can be walked to from `p` in one step.
    pub open spec fn adjacent(&self, p: (usize, usize), q: (usize, usize)) -> bool {
        ||| self.edge(p, Direction::North) && q == step_spec(p, Direction::North)
        ||| self.edge(p, Direction::South) && q == step_spec(p, Direction::South)
        ||| self.edge(p, Direction::East) && q == step_spec(p, Direction::East)
        ||| self.edge(p, Direction::West) && q == step_spec(p, Direction::West)
    }

    /// A walk through open connections, starting on the board.
    pub open spec fn is_path(&self, path: Seq<(usize, usize)>) -> bool {
        &&& path.len() >= 1
        &&& self.in_bounds(path[0])
        &&& forall|i: int|
            #![trigger path[i]]
            0 <= i < path.len() - 1 ==> self.adjacent(path[i], path[i + 1])
    }

    /// `to` can be walked to from `from`.
    pub open spec fn reachable(&self, from: (usize, usize), to: (usize, usize)) -> bool {
        exists|path: Seq<(usize, usize)>|
            #[trigger] self.is_path(path) && path[0] == from && path.last() == to
    }

    /// All cells that can be walked to from `from`.
    pub open spec fn reachable_set(&self, from: (usize, usize)) -> Set<(usize, usize)> {
        Set::new(|q: (usize, usize)| self.reachable(from, q))
    }

    /// Every open connection out of a cell of `s` leads into `s`.
    pub open spec fn closed(&self, s: Seq<(usize, usize)>) -> bool {
        forall|p: (usize, usize), d: Direction|
            #![trigger s.contains(p), self.edge(p, d)]
            s.contains(p) && self.edge(p, d) ==> s.contains(step_spec(p, d))
    }

    /// `s` is on the board, one step from `p` (whatever tiles are in between).
    pub open spec fn neighbor(&self, p: (usize, usize), s: (usize, usize)) -> bool {
        ||| move_fits(p, Direction::North, self.dims()) && s == step_spec(p, Direction::North)
        ||| move_fits(p, Direction::South, self.dims()) && s == step_spec(p, Direction::South)
        ||| move_fits(p, Direction::East, self.dims()) && s == step_spec(p, Direction::East)
        ||| move_fits(p, Direction::West, self.dims()) && s == step_spec(p, Direction::West)
    }

    /// `s` is `from` itself or a cell next to one reachable from `from`.
    pub open spec fn near_seed(&self, from: (usize, usize), s: (usize, usize)) -> bool {
        s == from || exists|p: (usize, usize)| #[trigger] self.reachable(from, p) && self.neighbor(p, s)
    }

    /// The cells reachable from `from` or from a cell one step off its reachable area.
    pub open spec fn nearly_reachable_set(&self, from: (usize, usize)) -> Set<(usize, usize)> {
        Set::new(
            |q: (usize, usize)|
                exists|s: (usize, usize)| #[trigger] self.near_seed(from, s) && self.reachable(s, q),
        )
    }

    /// A cell reaches itself.
    pub proof fn lemma_reach_self(&self, p: (usize, usize))
        requires
            self.in_bounds(p),
        ensures
            self.reachable(p, p),
    {
        let path = seq![p];
        assert(self.is_path(path));
    }

    /// Reachability extends by one open connection.
    pub proof fn lemma_reach_step(&self, from: (usize, usize), p: (usize, usize), d: Direction)
        requires
            self.reachable(from, p),
            self.edge(p, d),
        ensures
            self.reachable(from, step_spec(p, d)),
    {
        let path = choose|path: Seq<(usize, usize)>|
            #[trigger] self.is_path(path) && path[0] == from && path.last() == p;
        let q = step_spec(p, d);
        let path2 = path.push(q);
        assert(self.adjacent(p, q));
        assert forall|i: int| #![trigger path2[i]] 0 <= i < path2.len() - 1 implies self.adjacent(
            path2[i],
            path2[i + 1],
        ) by {
            if i < path.len() - 1 {
                assert(path[i] == path2[i]);
                assert(path[i + 1] == path2[i + 1]);
            }
        }
        assert(self.is_path(path2));
    }

    proof fn lemma_path_prefix_in(&self, s: Seq<(usize, usize)>, path: Seq<(usize, usize)>, i: int)
        requires
            self.closed(s),
            self.is_path(path),
            s.contains(path[0]),
            0 <= i < path.len(),
        ensures
            s.contains(path[i]),
        decreases i,
    {
        if i > 0 {
            self.lemma_path_prefix_in(s, path, i - 1);
            let p = path[i - 1];
            assert(self.adjacent(p, path[i]));
            if self.edge(p, Direction::North) && path[i] == step_spec(p, Direction::North) {
            } else if self.edge(p, Direction::South) && path[i] == step_spec(p, Direction::South) {
            } else if self.edge(p, Direction::East) && path[i] == step_spec(p, Direction::East) {
            } else {
                assert(self.edge(p, Direction::West));
            }
        }
    }

    /// A closed set of cells that contains `from` contains every cell reachable from `from`.
    pub proof fn lemma_closed_contains_reachable(
        &self,
        s: Seq<(usize, usize)>,
        from: (usize, usize),
        q: (usize, usize),
    )
        requires
            self.closed(s),
            s.contains(from),
            self.reachable(from, q),
        ensures
            s.contains(q),
    {
        let path = choose|path: Seq<(usize, usize)>|
            #[trigger] self.is_path(path) && path[0] == from && path.last() == q;
        self.lemma_path_prefix_in(s, path, path.len() - 1);
    }

    /// An open connection can be walked both ways.
    pub proof fn lemma_adjacent_symmetric(&self, p: (usize, usize), q: (usize, usize))
        requires
            self.width_spec() <= usize::MAX,
            self.height_spec() <= usize::MAX,
            self.adjacent(p, q),
        ensures
            self.adjacent(q, p),
    {
        let dims = self.dims();
        let d = if self.edge(p, Direction::North) && q == step_spec(p, Direction::North) {
            Direction::North
        } else if self.edge(p, Direction::South) && q == step_spec(p, Direction::South) {
            Direction::South
        } else if self.edge(p, Direction::East) && q == step_spec(p, Direction::East) {
            Direction::East
        } else {
            Direction::West
        };
        assert(self.edge(p, d) && q == step_spec(p, d));
        crate::tile::lemma_move_fits_back(p, d, dims);
        crate::tile::lemma_step_back(p, d);
        crate::tile::lemma_opposite_involution(d);
        assert(self.in_bounds(q));
        assert(self.edge(q, d.opposite()));
        assert(step_spec(q, d.opposite()) == p);
        match d.opposite() {
            Direction::North => assert(self.edge(q, Direction::North) && p == step_spec(q, Direction::North)),
            Direction::South => assert(self.edge(q, Direction::South) && p == step_spec(q, Direction::South)),
            Direction::East => assert(self.edge(q, Direction::East) && p == step_spec(q, Direction::East)),
            Direction::West => assert(self.edge(q, Direction::West) && p == step_spec(q, Direction::West)),
        }
    }

    /// Whoever can walk from `a` to `b` can walk back from `b` to `a`.
    pub proof fn lemma_reach_symmetric(&self, a: (usize, usize), b: (usize, usize))
        requires
            self.width_spec() <= usize::MAX,
            self.height_spec() <= usize::MAX,
            self.reachable(a, b),
        ensures
            self.reachable(b, a),
    {
        let path = choose|path: Seq<(usize, usize)>|
            #[trigger] self.is_path(path) && path[0] == a && path.last() == b;
        let back = path.reverse();
        let n = path.len();
        assert forall|i: int| #![trigger back[i]] 0 <= i < back.len() - 1 implies self.adjacent(
            back[i],
            back[i + 1],
        ) by {
            let j = n - 2 - i;
            assert(path[j] == back[i + 1]);
            assert(path[j + 1] == back[i]);
            assert(self.adjacent(path[j], path[j + 1]));
            self.lemma_adjacent_symmetric(path[j], path[j + 1]);
        }
        if n > 1 {
            assert(self.adjacent(path[n - 2], path[n - 1]));
            self.lemma_adjacent_symmetric(path[n - 2], path[n - 1]);
        }
        assert(back[0] == b);
        assert(self.in_bounds(back[0])) by {
            if n == 1 {
                assert(back[0] == path[0]);
            } else {
                let d = if self.edge(path[n - 1], Direction::North) && path[n - 2] == step_spec(path[n - 1], Direction::North) {
                    Direction::North
                } else if self.edge(path[n - 1], Direction::South) && path[n - 2] == step_spec(path[n - 1], Direction::South) {
                    Direction::South
                } else if self.edge(path[n - 1], Direction::East) && path[n - 2] == step_spec(path[n - 1], Direction::East) {
                    Direction::East
                } else {
                    Direction::West
                };
                assert(self.edge(path[n - 1], d));
            }
        }
        assert(self.is_path(back));
        assert(back.last() == a);
    }

    /// Reachability is transitive.
    pub proof fn lemma_reach_trans(&self, a: (usize, usize), b: (usize, usize), c: (usize, usize))
        requires
            self.reachable(a, b),
            self.reachable(b, c),
        ensures
            self.reachable(a, c),
    {
        let p1 = choose|path: Seq<(usize, usize)>|
            #[trigger] self.is_path(path) && path[0] == a && path.last() == b;
        let p2 = choose|path: Seq<(usize, usize)>|
            #[trigger] self.is_path(path) && path[0] == b && path.last() == c;
        let p = p1 + p2.drop_first();
        assert forall|i: int| #![trigger p[i]] 0 <= i < p.len() - 1 implies self.adjacent(
            p[i],
            p[i + 1],
        ) by {
            if i < p1.len() - 1 {
                assert(p[i] == p1[i]);
                assert(p[i + 1] == p1[i + 1]);
            } else if i == p1.len() - 1 {
                assert(p[i] == p2[0]);
                assert(p[i + 1] == p2[1]);
                assert(p2[0] == p2[0]);
            } else {
                let j = i - p1.len() + 1;
                assert(p[i] == p2[j]);
                assert(p[i + 1] == p2[j + 1]);
            }
        }
        if p2.len() == 1 {
            assert(p =~= p1);
        }
        assert(self.is_path(p));
        assert(p[0] == a);
        assert(p.last() == c);
    }

    /// The search state is consistent: `result` (marked in `marks`) starts with `r0`, contains
    /// `from`, and everything else in it, and everything waiting in `frontier`, is reachable from
    /// `from`.
    pub open spec fn search_ok(
        &self,
        from: (usize, usize),
        r0: Seq<(usize, usize)>,
        result: Seq<(usize, usize)>,
        marks: Seq<Seq<bool>>,
        frontier: Seq<(usize, usize)>,
    ) -> bool {
        &&& marks_ok(result, marks, self.width_spec(), self.height_spec())
        &&& result.len() <= self.width_spec() * self.height_spec()
        &&& r0.len() <= result.len()
        &&& result.subrange(0, r0.len() as int) == r0
        &&& result.contains(from)
        &&& frontier.no_duplicates()
        &&& forall|k: int|
            0 <= k < frontier.len() ==> #[trigger] result.contains(frontier[k]) && self.reachable(
                from,
                frontier[k],
            )
        &&& forall|k: int|
            0 <= k < result.len() ==> r0.contains(#[trigger] result[k]) || self.reachable(
                from,
                result[k],
            )
    }

    /// Every open connection out of a cell of `result` that is neither waiting in `frontier` nor
    /// `curr` leads into `result`.
    pub open spec fn closed_except(
        &self,
        result: Seq<(usize, usize)>,
        frontier: Seq<(usize, usize)>,
        curr: (usize, usize),
    ) -> bool {
        forall|p: (usize, usize), d: Direction|
            #![trigger result.contains(p), self.edge(p, d)]
            result.contains(p) && !frontier.contains(p) && p != curr && self.edge(p, d)
                ==> result.contains(step_spec(p, d))
    }

    /// Records a newly found cell: marks it and appends it to `result` and `frontier`.
    #[verifier::rlimit(60)]
    fn visit(
        &self,
        from: (usize, usize),
        next: (usize, usize),
        curr: Ghost<(usize, usize)>,
        r0: Ghost<Seq<(usize, usize)>>,
        result: &mut Vec<(usize, usize)>,
        marks: &mut Vec<Vec<bool>>,
        frontier: &mut Vec<(usize, usize)>,
    )
        requires
            self.rectangular(),
            self.search_ok(from, r0@, old(result)@, marks_of(old(marks)@), old(frontier)@),
            self.closed_except(old(result)@, old(frontier)@, curr@),
            old(result)@.contains(curr@),
            !old(frontier)@.contains(curr@),
            self.in_bounds(next),
            !old(result)@.contains(next),
            self.reachable(from, next),
        ensures
            self.search_ok(from, r0@, final(result)@, marks_of(final(marks)@), final(frontier)@),
            self.closed_except(final(result)@, final(frontier)@, curr@),
            final(result)@ == old(result)@.push(next),
            final(frontier)@ == old(frontier)@.push(next),
            forall|y: (usize, usize)| old(result)@.contains(y) ==> #[trigger] final(result)@.contains(y),
    {
        let ghost rb = result@;
        let ghost fb = frontier@;
        let ghost m0 = marks_of(marks@);
        let ghost w = self.width_spec();
        let ghost h = self.height_spec();
        proof {
            assert(m0[next.0 as int] == marks@[next.0 as int]@);
            assert(!m0[next.0 as int][next.1 as int]);
            lemma_count_grid_update(m0, next.0 as int, next.1 as int);
            assert(!fb.contains(next)) by {
                if fb.contains(next) {
                    let j = choose|j: int| 0 <= j < fb.len() && fb[j] == next;
                    assert(rb.contains(fb[j]));
                }
            }
        }
        frontier.push(next);
        result.push(next);
        marks[next.0][next.1] = true;
        proof {
            let m1 = marks_of(marks@);
            assert(m1 =~= m0.update(next.0 as int, m0[next.0 as int].update(next.1 as int, true)));
            assert forall|p: (usize, usize)| p.0 < h && p.1 < w implies (m1[p.0 as int][p.1 as int]
                <==> result@.contains(p)) by {
                if p != next {
                    if rb.contains(p) {
                        let j = choose|j: int| 0 <= j < rb.len() && rb[j] == p;
                        assert(result@[j] == p);
                    }
                    if result@.contains(p) {
                        let j = choose|j: int| 0 <= j < result@.len() && result@[j] == p;
                        assert(j < rb.len());
                        assert(rb[j] == p);
                    }
                } else {
                    assert(result@[result@.len() - 1] == p);
                }
            }
            assert forall|j: int| 0 <= j < result@.len() implies #[trigger] result@[j].0 < h
                && result@[j].1 < w by {
                if j < rb.len() {
                    assert(result@[j] == rb[j]);
                    assert(rb[j].0 < h && rb[j].1 < w);
                } else {
                    assert(result@[j] == next);
                    assert(next.0 < h && next.1 < w);
                }
            }
            assert forall|r: int| 0 <= r < h implies #[trigger] m1[r].len() == w by {
                assert(m0[r].len() == w);
            }
            assert(marks_ok(result@, m1, w, h));
            lemma_count_grid_le(m1, w);
            assert(result@.subrange(0, r0@.len() as int) =~= rb.subrange(0, r0@.len() as int));
            assert forall|j: int| 0 <= j < result@.len() implies r0@.contains(#[trigger] result@[j])
                || self.reachable(from, result@[j]) by {
                if j < rb.len() {
                    assert(result@[j] == rb[j]);
                }
            }
            assert forall|j: int| 0 <= j < frontier@.len() implies #[trigger] result@.contains(
                frontier@[j],
            ) && self.reachable(from, frontier@[j]) by {
                if j < fb.len() {
                    assert(frontier@[j] == fb[j]);
                    assert(rb.contains(fb[j]));
                    let i = choose|i: int| 0 <= i < rb.len() && rb[i] == fb[j];
                    assert(result@[i] == rb[i]);
                } else {
                    assert(result@[result@.len() - 1] == next);
                }
            }
            assert(result@.contains(from)) by {
                let i = choose|i: int| 0 <= i < rb.len() && rb[i] == from;
                assert(result@[i] == from);
            }
            assert(self.search_ok(from, r0@, result@, m1, frontier@));
            assert forall|y: (usize, usize)| rb.contains(y) implies #[trigger] result@.contains(y) by {
                let j = choose|j: int| 0 <= j < rb.len() && rb[j] == y;
                assert(result@[j] == y);
            }
            assert forall|p: (usize, usize), d: Direction|
                #![trigger result@.contains(p), self.edge(p, d)]
                result@.contains(p) && !frontier@.contains(p) && p != curr@ && self.edge(p, d)
                    implies result@.contains(step_spec(p, d)) by {
                if p != next {
                    let i = choose|i: int| 0 <= i < result@.len() && result@[i] == p;
                    assert(i < rb.len());
                    assert(rb[i] == p);
                    assert(!fb.contains(p)) by {
                        if fb.contains(p) {
                            let j = choose|j: int| 0 <= j < fb.len() && fb[j] == p;
                            assert(frontier@[j] == p);
                        }
                    }
                    let q = step_spec(p, d);
                    assert(rb.contains(q));
                    let i2 = choose|i2: int| 0 <= i2 < rb.len() && rb[i2] == q;
                    assert(result@[i2] == q);
                } else {
                    assert(frontier@[frontier@.len() - 1] == next);
                }
            }
        }
    }

    /// Follows the open connections out of `curr`, recording each cell not seen before.
    #[verifier::rlimit(40)]
    fn expand(
        &self,
        from: (usize, usize),
        curr: (usize, usize),
        r0: Ghost<Seq<(usize, usize)>>,
        result: &mut Vec<(usize, usize)>,
        marks: &mut Vec<Vec<bool>>,
        frontier: &mut Vec<(usize, usize)>,
    )
        requires
            self.rectangular(),
            self.search_ok(from, r0@, old(result)@, marks_of(old(marks)@), old(frontier)@),
            self.closed_except(old(result)@, old(frontier)@, curr),
            old(result)@.contains(curr),
            !old(frontier)@.contains(curr),
            self.in_bounds(curr),
            self.reachable(from, curr),
        ensures
            self.search_ok(from, r0@, final(result)@, marks_of(final(marks)@), final(frontier)@),
            self.closed_except(final(result)@, final(frontier)@, curr),
            forall|d: Direction| #[trigger] self.edge(curr, d) ==> final(result)@.contains(step_spec(curr, d)),
            !final(frontier)@.contains(curr),
            final(frontier)@.len() + old(result)@.len() == final(result)@.len() + old(frontier)@.len(),
            old(result)@.len() <= final(result)@.len(),
    {
        let w = self.width();
        let h = self.height();
        let dims = (w, h);
        let ghost r1 = result@.len();
        let ghost f1 = frontier@.len();
        proof {
            assert(self.cells@[curr.0 as int]@.len() == self.grid()[curr.0 as int].len());
        }
        let tile = self.cells[curr.0][curr.1];
        assert(tile == self.cell(curr));
        let dirs = tile.paths();
        let mut k: usize = 0;
        while k < dirs.len()
            invariant
                self.rectangular(),
                w == self.width_spec(),
                h == self.height_spec(),
                dims == (w, h),
                dirs@ == self.cell(curr).path_seq(),
                k <= dirs@.len(),
                self.in_bounds(curr),
                self.reachable(from, curr),
                result@.contains(curr),
                !frontier@.contains(curr),
                self.search_ok(from, r0@, result@, marks_of(marks@), frontier@),
                self.closed_except(result@, frontier@, curr),
                frontier@.len() + r1 == result@.len() + f1,
                r1 <= result@.len(),
                forall|m: int|
                    0 <= m < k && #[trigger] self.edge(curr, dirs@[m]) ==> result@.contains(
                        step_spec(curr, dirs@[m]),
                    ),
            decreases dirs@.len() - k,
        {
            let dir = dirs[k];
            let ghost rb = result@;
            if valid_move(curr, dir, dims) {
                let next = step(curr, dir);
                proof {
                    assert(self.cells@[next.0 as int]@.len() == self.grid()[next.0 as int].len());
                }
                let back = dir.compose(Direction::South);
                let ntile = self.cells[next.0][next.1];
                assert(ntile == self.cell(next));
                if ntile.has_path(back) {
                    proof {
                        assert(self.cell(curr).opens(dir)) by {
                            assert(self.cell(curr).path_seq()[k as int] == dir);
                        }
                        assert(self.edge(curr, dir));
                        self.lemma_reach_step(from, curr, dir);
                    }
                    let ghost m0 = marks_of(marks@);
                    assert(m0[next.0 as int] == marks@[next.0 as int]@);
                    if !marks[next.0][next.1] {
                        self.visit(from, next, Ghost(curr), r0, result, marks, frontier);
                        assert(result@[result@.len() - 1] == next);
                    } else {
                        assert(m0[next.0 as int][next.1 as int]);
                    }
                    assert(result@.contains(next));
                }
                assert(self.edge(curr, dir) ==> result@.contains(step_spec(curr, dir)));
            }
            assert(self.edge(curr, dir) ==> result@.contains(step_spec(curr, dir)));
            proof {
                assert(forall|y: (usize, usize)| rb.contains(y) ==> #[trigger] result@.contains(y));
                assert forall|m: int|
                    0 <= m < k + 1 && #[trigger] self.edge(curr, dirs@[m]) implies result@.contains(
                    step_spec(curr, dirs@[m]),
                ) by {
                    if m == k {
                        assert(dirs@[m] == dir);
                    } else {
                        assert(rb.contains(step_spec(curr, dirs@[m])));
                    }
                }
            }
            k = k + 1;
        }
        proof {
            assert forall|d: Direction| #[trigger] self.edge(curr, d) implies result@.contains(
                step_spec(curr, d),
            ) by {
                assert(self.cell(curr).opens(d));
                let m = choose|m: int| 0 <= m < dirs@.len() && dirs@[m] == d;
                assert(self.edge(curr, dirs@[m]));
            }
        }
    }

    /// Adds to `result` (marked in `marks`) every cell reachable from `from`.
    fn add_reachable_coords(
        &self,
        from: (usize, usize),
        result: &mut Vec<(usize, usize)>,
        marks: &mut Vec<Vec<bool>>,
    )
        requires
            self.rectangular(),
            self.in_bounds(from),
            marks_ok(old(result)@, marks_of(old(marks)@), self.width_spec(), self.height_spec()),
            self.closed(old(result)@),
        ensures
            marks_ok(final(result)@, marks_of(final(marks)@), self.width_spec(), self.height_spec()),
            self.closed(final(result)@),
            final(result)@.to_set() == old(result)@.to_set().union(self.reachable_set(from)),
            final(result)@.subrange(0, old(result)@.len() as int) == old(result)@,
            old(result)@.len() <= final(result)@.len(),
    {
        let ghost r0 = result@;
        let w = self.width();
        let h = self.height();
        proof {
            self.lemma_reach_self(from);
        }
        let ghost m0 = marks_of(marks@);
        assert(m0[from.0 as int] == marks@[from.0 as int]@);
        if !marks[from.0][from.1] {
            proof {
                lemma_count_grid_update(m0, from.0 as int, from.1 as int);
                assert(!r0.contains(from));
            }
            marks[from.0][from.1] = true;
            result.push(from);
            proof {
                let m1 = marks_of(marks@);
                assert(m1 =~= m0.update(from.0 as int, m0[from.0 as int].update(from.1 as int, true)));
                assert forall|p: (usize, usize)| p.0 < h && p.1 < w implies (m1[p.0 as int][p.1 as int]
                    <==> result@.contains(p)) by {
                    if p != from {
                        if r0.contains(p) {
                            let k = choose|k: int| 0 <= k < r0.len() && r0[k] == p;
                            assert(result@[k] == p);
                        }
                        if result@.contains(p) {
                            let k = choose|k: int| 0 <= k < result@.len() && result@[k] == p;
                            assert(k < r0.len());
                            assert(r0[k] == p);
                        }
                    } else {
                        assert(result@[result@.len() - 1] == p);
                    }
                }
                assert forall|k: int| 0 <= k < result@.len() implies #[trigger] result@[k].0 < h
                    && result@[k].1 < w by {
                    if k < r0.len() {
                        assert(result@[k] == r0[k]);
                    }
                }
                assert forall|r: int| 0 <= r < h implies #[trigger] m1[r].len() == w by {
                    assert(m0[r].len() == w);
                }
            }
        }
        proof {
            assert(result@.contains(from));
            assert(result@.subrange(0, r0.len() as int) =~= r0);
            lemma_count_grid_le(marks_of(marks@), w as int);
        }
        let mut frontier: Vec<(usize, usize)> = Vec::new();
        frontier.push(from);
        proof {
            lemma_prefix(result@, r0);
            assert(frontier@[0] == from);
            assert forall|p: (usize, usize), d: Direction|
                #![trigger result@.contains(p), self.edge(p, d)]
                result@.contains(p) && !frontier@.contains(p) && self.edge(p, d)
                    implies result@.contains(step_spec(p, d)) by {
                let i = choose|i: int| 0 <= i < result@.len() && result@[i] == p;
                if i >= r0.len() {
                    assert(result@.len() == r0.len() + 1);
                    assert(p == from);
                }
                assert(r0[i] == p);
                assert(r0.contains(p));
            }
            assert forall|k: int| 0 <= k < result@.len() implies r0.contains(#[trigger] result@[k])
                || self.reachable(from, result@[k]) by {
                if k < r0.len() {
                    assert(r0[k] == result@[k]);
                }
            }
            assert(self.search_ok(from, r0, result@, marks_of(marks@), frontier@));
        }
        while frontier.len() > 0
            invariant
                self.rectangular(),
                self.search_ok(from, r0, result@, marks_of(marks@), frontier@),
                forall|p: (usize, usize), d: Direction|
                    #![trigger result@.contains(p), self.edge(p, d)]
                    result@.contains(p) && !frontier@.contains(p) && self.edge(p, d)
                        ==> result@.contains(step_spec(p, d)),
            decreases (self.width_spec() * self.height_spec() - result@.len()) * 5 + frontier@.len(),
        {
            let ghost f_before = frontier@;
            let ghost r1 = result@.len();
            let curr = match frontier.pop() {
                Some(c) => c,
                None => {
                    proof {
                        assert(false);
                    }
                    (0, 0)
                },
            };
            proof {
                assert(f_before.last() == curr);
                assert(frontier@ =~= f_before.drop_last());
                assert(!frontier@.contains(curr)) by {
                    if frontier@.contains(curr) {
                        let k = choose|k: int| 0 <= k < frontier@.len() && frontier@[k] == curr;
                        assert(f_before[k] == f_before[f_before.len() - 1]);
                    }
                }
                assert(result@.contains(f_before[f_before.len() - 1]));
                assert(self.reachable(from, curr));
                let kc = choose|k: int| 0 <= k < result@.len() && result@[k] == curr;
                assert forall|m: int| 0 <= m < frontier@.len() implies #[trigger] result@.contains(
                    frontier@[m],
                ) && self.reachable(from, frontier@[m]) by {
                    assert(frontier@[m] == f_before[m]);
                }
                assert(self.search_ok(from, r0, result@, marks_of(marks@), frontier@));
                assert forall|p: (usize, usize), d: Direction|
                    #![trigger result@.contains(p), self.edge(p, d)]
                    result@.contains(p) && !frontier@.contains(p) && p != curr && self.edge(p, d)
                        implies result@.contains(step_spec(p, d)) by {
                    assert(!f_before.contains(p)) by {
                        if f_before.contains(p) {
                            let j = choose|j: int| 0 <= j < f_before.len() && f_before[j] == p;
                            if j < f_before.len() - 1 {
                                assert(frontier@[j] == p);
                            }
                        }
                    }
                }
            }
            self.expand(from, curr, Ghost(r0), result, marks, &mut frontier);
            proof {
                assert forall|p: (usize, usize), d: Direction|
                    #![trigger result@.contains(p), self.edge(p, d)]
                    result@.contains(p) && !frontier@.contains(p) && self.edge(p, d)
                        implies result@.contains(step_spec(p, d)) by {
                    if p == curr {
                        assert(self.edge(curr, d));
                    }
                }
            }
        }
        proof {
            assert(self.closed(result@));
            assert forall|q: (usize, usize)| #[trigger] result@.to_set().contains(q) == r0.to_set().union(
                self.reachable_set(from),
            ).contains(q) by {
                if result@.contains(q) {
                    let k = choose|k: int| 0 <= k < result@.len() && result@[k] == q;
                }
                if r0.contains(q) {
                    lemma_prefix(result@, r0);
                }
                if self.reachable(from, q) {
                    self.lemma_closed_contains_reachable(result@, from, q);
                }
            }
            assert(result@.to_set() =~= r0.to_set().union(self.reachable_set(from)));
        }
    }

    /// Gets all the coordinates reachable from the given (row, col)
    pub fn reachable_coords(&self, from: (usize, usize)) -> (r: Vec<(usize, usize)>)
        requires
            self.rectangular(),
            self.in_bounds(from),
        ensures
            r@.no_duplicates(),
            r@.to_set() == self.reachable_set(from),
    {
        let mut result: Vec<(usize, usize)> = Vec::new();
        let mut marks = new_marks(self.width(), self.height());
        self.add_reachable_coords(from, &mut result, &mut marks);
        assert(result@.to_set() =~= self.reachable_set(from));
        result
    }
    /// Adds to the result the cells reachable from `from`, then, for every cell found so far, the
    /// cells reachable from each of its on-board neighbours. Returns the cells and their marks.
    pub(crate) fn nearly_reachable_marks(&self, from: (usize, usize)) -> (res: (
        Vec<(usize, usize)>,
        Vec<Vec<bool>>,
    ))
        requires
            self.rectangular(),
            self.in_bounds(from),
        ensures
            marks_ok(res.0@, marks_of(res.1@), self.width_spec(), self.height_spec()),
            res.0@.to_set() == self.nearly_reachable_set(from),
    {
        let w = self.width();
        let h = self.height();
        let dims = (w, h);
        let mut result: Vec<(usize, usize)> = Vec::new();
        let mut marks = new_marks(w, h);
        self.add_reachable_coords(from, &mut result, &mut marks);
        let direct_len = result.len();
        let ghost direct = result@;
        proof {
            assert(direct.to_set() =~= self.reachable_set(from));
            self.lemma_reach_self(from);
            assert(direct.to_set().contains(from));
            assert forall|x: (usize, usize)| result@.contains(x) implies self.nearly_reachable_set(
                from,
            ).contains(x) by {
                assert(direct.to_set().contains(x));
                assert(self.near_seed(from, from));
            }
        }
        let dirs = Direction::all();
        let mut k: usize = 0;
        while k < direct_len
            invariant
                self.rectangular(),
                self.in_bounds(from),
                w == self.width_spec(),
                h == self.height_spec(),
                dims == (w, h),
                dirs@ == seq![Direction::North, Direction::South, Direction::East, Direction::West],
                k <= direct_len,
                direct_len == direct.len(),
                direct.len() <= result@.len(),
                result@.subrange(0, direct.len() as int) == direct,
                direct.to_set() == self.reachable_set(from),
                marks_ok(result@, marks_of(marks@), w as int, h as int),
                self.closed(result@),
                result@.contains(from),
                forall|x: (usize, usize)|
                    result@.contains(x) ==> #[trigger] self.nearly_reachable_set(from).contains(x),
                forall|m: int, d: Direction|
                    0 <= m < k && #[trigger] move_fits(direct[m], d, dims) ==> result@.contains(
                        step_spec(direct[m], d),
                    ),
            decreases direct_len - k,
        {
            proof {
                lemma_prefix(result@, direct);
            }
            let pos = result[k];
            let ghost rk = result@;
            assert(pos == direct[k as int]);
            assert(pos.0 < h && pos.1 < w);
            let mut di: usize = 0;
            while di < dirs.len()
                invariant
                    self.rectangular(),
                    self.in_bounds(from),
                    w == self.width_spec(),
                    h == self.height_spec(),
                    dims == (w, h),
                    dirs@ == seq![Direction::North, Direction::South, Direction::East, Direction::West],
                    di <= dirs@.len(),
                    k < direct_len,
                    direct_len == direct.len(),
                    pos == direct[k as int],
                    pos.0 < h && pos.1 < w,
                    direct.len() <= result@.len(),
                    result@.subrange(0, direct.len() as int) == direct,
                    direct.to_set() == self.reachable_set(from),
                    marks_ok(result@, marks_of(marks@), w as int, h as int),
                    self.closed(result@),
                    result@.contains(from),
                    forall|x: (usize, usize)|
                        result@.contains(x) ==> #[trigger] self.nearly_reachable_set(from).contains(
                            x,
                        ),
                    forall|m: int, d: Direction|
                        0 <= m < k && #[trigger] move_fits(direct[m], d, dims) ==> result@.contains(
                            step_spec(direct[m], d),
                        ),
                    forall|e: int|
                        0 <= e < di && move_fits(pos, #[trigger] dirs@[e], dims) ==> result@.contains(
                            step_spec(pos, dirs@[e]),
                        ),
                decreases dirs@.len() - di,
            {
                let dir = dirs[di];
                let ghost rb = result@;
                if valid_move(pos, dir, dims) {
                    let next = step(pos, dir);
                    let ghost m0 = marks_of(marks@);
                    assert(m0[next.0 as int] == marks@[next.0 as int]@);
                    if !marks[next.0][next.1] {
                        proof {
                            assert(self.in_bounds(next));
                            assert(self.reachable(from, pos)) by {
                                assert(direct.to_set().contains(pos));
                            }
                            assert(self.neighbor(pos, next));
                            assert(self.near_seed(from, next));
                        }
                        self.add_reachable_coords(next, &mut result, &mut marks);
                        proof {
                            lemma_prefix(result@, rb);
                            assert(result@.subrange(0, direct.len() as int) =~= rb.subrange(
                                0,
                                direct.len() as int,
                            ));
                            assert forall|x: (usize, usize)| result@.contains(x) implies #[trigger] self.nearly_reachable_set(
                                from,
                            ).contains(x) by {
                                assert(result@.to_set().contains(x));
                                if !rb.contains(x) {
                                    assert(self.reachable(next, x));
                                    assert(self.near_seed(from, next));
                                }
                            }
                            assert(result@.to_set().contains(next)) by {
                                self.lemma_reach_self(next);
                            }
                        }
                    }
                }
                proof {
                    assert(rb.subrange(0, rb.len() as int) =~= rb);
                    lemma_prefix(result@, rb);
                    assert forall|m: int, d: Direction|
                        0 <= m < k && #[trigger] move_fits(direct[m], d, dims) implies result@.contains(
                            step_spec(direct[m], d),
                        ) by {
                        assert(rb.contains(step_spec(direct[m], d)));
                    }
                    assert forall|e: int|
                        0 <= e < di + 1 && move_fits(pos, #[trigger] dirs@[e], dims) implies result@.contains(
                            step_spec(pos, dirs@[e]),
                        ) by {
                        if e < di {
                            assert(rb.contains(step_spec(pos, dirs@[e])));
                        } else {
                            assert(dirs@[e] == dir);
                        }
                    }
                }
                di = di + 1;
            }
            proof {
                assert forall|m: int, d: Direction|
                    0 <= m < k + 1 && #[trigger] move_fits(direct[m], d, dims) implies result@.contains(
                        step_spec(direct[m], d),
                    ) by {
                    if m == k {
                        if d == Direction::North {
                            assert(dirs@[0] == d);
                        } else if d == Direction::South {
                            assert(dirs@[1] == d);
                        } else if d == Direction::East {
                            assert(dirs@[2] == d);
                        } else {
                            assert(dirs@[3] == d);
                        }
                    }
                }
            }
            k = k + 1;
        }
        proof {
            assert forall|q: (usize, usize)| #[trigger] result@.to_set().contains(q)
                == self.nearly_reachable_set(from).contains(q) by {
                if self.nearly_reachable_set(from).contains(q) {
                    let s = choose|s: (usize, usize)|
                        #[trigger] self.near_seed(from, s) && self.reachable(s, q);
                    if s == from {
                        self.lemma_closed_contains_reachable(result@, from, q);
                    } else {
                        let p = choose|p: (usize, usize)|
                            #[trigger] self.reachable(from, p) && self.neighbor(p, s);
                        assert(direct.to_set().contains(p));
                        let m = choose|m: int| 0 <= m < direct.len() && direct[m] == p;
                        if move_fits(p, Direction::North, dims) && s == step_spec(p, Direction::North) {
                            assert(move_fits(direct[m], Direction::North, dims));
                        } else if move_fits(p, Direction::South, dims) && s == step_spec(
                            p,
                            Direction::South,
                        ) {
                            assert(move_fits(direct[m], Direction::South, dims));
                        } else if move_fits(p, Direction::East, dims) && s == step_spec(
                            p,
                            Direction::East,
                        ) {
                            assert(move_fits(direct[m], Direction::East, dims));
                        } else {
                            assert(move_fits(direct[m], Direction::West, dims));
                        }
                        assert(result@.contains(s));
                        self.lemma_closed_contains_reachable(result@, s, q);
                    }
                }
            }
            assert(result@.to_set() =~= self.nearly_reachable_set(from));
        }
        (result, marks)
    }

    /// Gets all the coordinates reachable from the given (row, col) or one tile nearby: the cells
    /// reachable from the start, and the cells reachable from any on-board neighbour of those.
    pub fn nearly_reachable_coords(&self, from: (usize, usize)) -> (r: Vec<(usize, usize)>)
        requires
            self.rectangular(),
            self.in_bounds(from),
        ensures
            r@.no_duplicates(),
            r@.to_set() == self.nearly_reachable_set(from),
    {
        let (result, _marks) = self.nearly_reachable_marks(from);
        result
    }
}

} // verus!
