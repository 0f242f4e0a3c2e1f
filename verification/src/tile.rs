//! Tile logic: directions, tile shapes and their openings.

use vstd::prelude::*;

use crate::player::PlayerID;
use crate::rng;

verus! {

/// Cardinal directions
#[derive(PartialEq, Eq, Structural, Clone, Copy, Debug)]
pub enum Direction {
    /// Up
    North,
    /// Down
    South,
    /// Right
    East,
    /// Left
    West,
}

impl Direction {
    /// Number of clockwise quarter turns that lead from North to this direction.
    pub open spec fn quarter_turns(self) -> int {
        match self {
            Direction::North => 0,
            Direction::East => 1,
            Direction::South => 2,
            Direction::West => 3,
        }
    }

    /// The direction reached from North after `q` clockwise quarter turns.
    pub open spec fn from_quarter_turns(q: int) -> Direction {
        let r = q % 4;
        if r == 0 {
            Direction::North
        } else if r == 1 {
            Direction::East
        } else if r == 2 {
            Direction::South
        } else {
            Direction::West
        }
    }

    /// Directions compose as rotations: the quarter turns add up, modulo a full turn.
    pub open spec fn composed(self, rhs: Direction) -> Direction {
        Direction::from_quarter_turns(self.quarter_turns() + rhs.quarter_turns())
    }

    /// The direction pointing the other way.
    pub open spec fn opposite(self) -> Direction {
        self.composed(Direction::South)
    }

    /// The direction that composes with this one to North.
    pub open spec fn inverse(self) -> Direction {
        Direction::from_quarter_turns(4 - self.quarter_turns())
    }

    /// Composes two directions, read as rotations from North (the game's `*` on directions).
    pub fn compose(self, rhs: Direction) -> (r: Direction)
        ensures
            r == self.composed(rhs),
    {
        match (self, rhs) {
            (Direction::North, a) => a,
            (Direction::East, Direction::North) => Direction::East,
            (Direction::East, Direction::East) => Direction::South,
            (Direction::East, Direction::South) => Direction::West,
            (Direction::East, Direction::West) => Direction::North,
            (Direction::South, Direction::North) => Direction::South,
            (Direction::South, Direction::East) => Direction::West,
            (Direction::South, Direction::South) => Direction::North,
            (Direction::South, Direction::West) => Direction::East,
            (Direction::West, Direction::North) => Direction::West,
            (Direction::West, Direction::East) => Direction::North,
            (Direction::West, Direction::South) => Direction::East,
            (Direction::West, Direction::West) => Direction::South,
        }
    }

    /// All four directions, in declaration order.
    pub fn all() -> (r: Vec<Direction>)
        ensures
            r@ == seq![Direction::North, Direction::South, Direction::East, Direction::West],
    {
        let mut v: Vec<Direction> = Vec::new();
        v.push(Direction::North);
        v.push(Direction::South);
        v.push(Direction::East);
        v.push(Direction::West);
        v
    }

    /// The direction a uniform sample in `0..4` stands for.
    pub open spec fn sample_spec(i: usize) -> Direction {
        if i == 0 {
            Direction::North
        } else if i == 1 {
            Direction::South
        } else if i == 2 {
            Direction::East
        } else {
            Direction::West
        }
    }

    /// Maps a sample in `0..4` to a direction.
    pub fn from_sample(i: usize) -> (r: Direction)
        requires
            i < 4,
        ensures
            r == Direction::sample_spec(i),
    {
        if i == 0 {
            Direction::North
        } else if i == 1 {
            Direction::South
        } else if i == 2 {
            Direction::East
        } else {
            Direction::West
        }
    }

    /// A uniformly random direction.
    pub fn random() -> (r: Direction) {
        let i = rng::random_below(4);
        Direction::from_sample(i)
    }
}

/// Whether `dir` can be taken from `(row, col)` without leaving a board of the given
/// `(width, height)`.
pub open spec fn move_fits(pos: (usize, usize), dir: Direction, dims: (usize, usize)) -> bool {
    match dir {
        Direction::North => pos.0 > 0,
        Direction::South => pos.0 + 1 < dims.1,
        Direction::West => pos.1 > 0,
        Direction::East => pos.1 + 1 < dims.0,
    }
}

/// Whether a step in `dir` from `pos` stays within the range of `usize`.
pub open spec fn step_defined(pos: (usize, usize), dir: Direction) -> bool {
    match dir {
        Direction::North => pos.0 > 0,
        Direction::South => pos.0 < usize::MAX,
        Direction::West => pos.1 > 0,
        Direction::East => pos.1 < usize::MAX,
    }
}

/// The `(row, col)` one step from `pos` in `dir`.
pub open spec fn step_spec(pos: (usize, usize), dir: Direction) -> (usize, usize) {
    match dir {
        Direction::North => ((pos.0 - 1) as usize, pos.1),
        Direction::South => ((pos.0 + 1) as usize, pos.1),
        Direction::East => (pos.0, (pos.1 + 1) as usize),
        Direction::West => (pos.0, (pos.1 - 1) as usize),
    }
}

/// Moves a `(row, col)` position one step in the given direction.
pub fn step(pos: (usize, usize), dir: Direction) -> (r: (usize, usize))
    requires
        step_defined(pos, dir),
    ensures
        r == step_spec(pos, dir),
{
    let (j, i) = pos;
    match dir {
        Direction::North => (j - 1, i),
        Direction::South => (j + 1, i),
        Direction::East => (j, i + 1),
        Direction::West => (j, i - 1),
    }
}

/// Tile shapes
#[derive(PartialEq, Eq, Structural, Clone, Copy, Debug)]
pub enum Shape {
    /// Two connections, 90 degree angle (canonically North / East)
    L,
    /// Two connections, 180 degree angle (canonically North / South)
    I,
    /// Three connections (canonically North / East / South)
    T,
}

impl Shape {
    /// Openings of the shape in its canonical orientation.
    pub open spec fn canonical_paths(self) -> Seq<Direction> {
        match self {
            Shape::L => seq![Direction::North, Direction::East],
            Shape::I => seq![Direction::North, Direction::South],
            Shape::T => seq![Direction::North, Direction::East, Direction::South],
        }
    }

    /// Walls of the shape in its canonical orientation.
    pub open spec fn canonical_walls(self) -> Seq<Direction> {
        match self {
            Shape::L => seq![Direction::South, Direction::West],
            Shape::I => seq![Direction::East, Direction::West],
            Shape::T => seq![Direction::West],
        }
    }

    fn paths(&self) -> (r: Vec<Direction>)
        ensures
            r@ == self.canonical_paths(),
    {
        match self {
            Shape::L => vec![Direction::North, Direction::East],
            Shape::I => vec![Direction::North, Direction::South],
            Shape::T => vec![Direction::North, Direction::East, Direction::South],
        }
    }

    fn walls(&self) -> (r: Vec<Direction>)
        ensures
            r@ == self.canonical_walls(),
    {
        match self {
            Shape::L => vec![Direction::South, Direction::West],
            Shape::I => vec![Direction::East, Direction::West],
            Shape::T => vec![Direction::West],
        }
    }

    /// The shape a uniform sample in `0..3` stands for.
    pub open spec fn sample_spec(i: usize) -> Shape {
        if i == 0 {
            Shape::L
        } else if i == 1 {
            Shape::I
        } else {
            Shape::T
        }
    }

    /// Maps a sample in `0..3` to a shape.
    pub fn from_sample(i: usize) -> (r: Shape)
        requires
            i < 3,
        ensures
            r == Shape::sample_spec(i),
    {
        if i == 0 {
            Shape::L
        } else if i == 1 {
            Shape::I
        } else {
            Shape::T
        }
    }

    /// A uniformly random shape.
    pub fn random() -> (r: Shape) {
        let i = rng::random_below(3);
        Shape::from_sample(i)
    }
}

/// Contents of a tile
#[derive(PartialEq, Eq, Structural, Clone, Copy, Debug)]
pub struct Tile {
    /// Shape of the tile
    pub shape: Shape,
    /// Orientation of the tile
    pub orientation: Direction,
    /// Player whose target this tile is, if any
    pub whose_target: Option<PlayerID>,
}

/// Rotates each direction of `s` by `by`.
pub open spec fn rotate_all(s: Seq<Direction>, by: Direction) -> Seq<Direction> {
    s.map_values(|d: Direction| d.composed(by))
}

impl Tile {
    /// Directions in which this tile is open.
    pub open spec fn path_seq(self) -> Seq<Direction> {
        rotate_all(self.shape.canonical_paths(), self.orientation)
    }

    /// Directions in which this tile is walled.
    pub open spec fn wall_seq(self) -> Seq<Direction> {
        rotate_all(self.shape.canonical_walls(), self.orientation)
    }

    /// Whether the tile is open towards `d`.
    pub open spec fn opens(self, d: Direction) -> bool {
        self.path_seq().contains(d)
    }

    /// The tile turned one quarter clockwise.
    pub open spec fn rotated(self) -> Tile {
        Tile { orientation: Direction::East.composed(self.orientation), ..self }
    }

    /// Get the directions which are valid connections on this tile
    pub fn paths(&self) -> (r: Vec<Direction>)
        ensures
            r@ == self.path_seq(),
    {
        let base = self.shape.paths();
        let mut r: Vec<Direction> = Vec::new();
        let mut k: usize = 0;
        while k < base.len()
            invariant
                k <= base.len(),
                base@ == self.shape.canonical_paths(),
                r@ == rotate_all(base@.subrange(0, k as int), self.orientation),
            decreases base.len() - k,
        {
            r.push(base[k].compose(self.orientation));
            assert(base@.subrange(0, k + 1) == base@.subrange(0, k as int).push(base@[k as int]));
            k = k + 1;
        }
        assert(base@.subrange(0, base.len() as int) == base@);
        r
    }

    /// Get the directions which are blocked on this tile
    pub fn walls(&self) -> (r: Vec<Direction>)
        ensures
            r@ == self.wall_seq(),
    {
        let base = self.shape.walls();
        let mut r: Vec<Direction> = Vec::new();
        let mut k: usize = 0;
        while k < base.len()
            invariant
                k <= base.len(),
                base@ == self.shape.canonical_walls(),
                r@ == rotate_all(base@.subrange(0, k as int), self.orientation),
            decreases base.len() - k,
        {
            r.push(base[k].compose(self.orientation));
            assert(base@.subrange(0, k + 1) == base@.subrange(0, k as int).push(base@[k as int]));
            k = k + 1;
        }
        assert(base@.subrange(0, base.len() as int) == base@);
        r
    }

    /// Whether the tile is open towards `d`.
    pub fn has_path(&self, d: Direction) -> (r: bool)
        ensures
            r == self.opens(d),
    {
        let p = self.paths();
        let mut k: usize = 0;
        while k < p.len()
            invariant
                k <= p.len(),
                p@ == self.path_seq(),
                forall|m: int| 0 <= m < k ==> p@[m] != d,
            decreases p.len() - k,
        {
            if p[k] == d {
                return true;
            }
            k = k + 1;
        }
        false
    }

    /// Rotate this tile clockwise
    pub fn rotate(&mut self)
        ensures
            *final(self) == old(self).rotated(),
    {
        self.rotate_by(Direction::East);
    }

    /// Rotate this tile by the rotation that `by` stands for (East is a clockwise quarter turn,
    /// West a counterclockwise one).
    pub fn rotate_by(&mut self, by: Direction)
        ensures
            *final(self) == (Tile { orientation: by.composed(old(self).orientation), ..*old(self) }),
    {
        self.orientation = by.compose(self.orientation);
    }

    /// The tile drawn with a given character in board diagrams, if the character is one of
    /// `│─└┌┐┘├┬┤┴`.
    pub open spec fn char_spec(c: char) -> Option<Tile> {
        if c == '│' {
            Some(Tile { shape: Shape::I, orientation: Direction::North, whose_target: None })
        } else if c == '─' {
            Some(Tile { shape: Shape::I, orientation: Direction::East, whose_target: None })
        } else if c == '└' {
            Some(Tile { shape: Shape::L, orientation: Direction::North, whose_target: None })
        } else if c == '┌' {
            Some(Tile { shape: Shape::L, orientation: Direction::East, whose_target: None })
        } else if c == '┐' {
            Some(Tile { shape: Shape::L, orientation: Direction::South, whose_target: None })
        } else if c == '┘' {
            Some(Tile { shape: Shape::L, orientation: Direction::West, whose_target: None })
        } else if c == '├' {
            Some(Tile { shape: Shape::T, orientation: Direction::North, whose_target: None })
        } else if c == '┬' {
            Some(Tile { shape: Shape::T, orientation: Direction::East, whose_target: None })
        } else if c == '┤' {
            Some(Tile { shape: Shape::T, orientation: Direction::South, whose_target: None })
        } else if c == '┴' {
            Some(Tile { shape: Shape::T, orientation: Direction::West, whose_target: None })
        } else {
            None
        }
    }

    /// Reads a tile from its box-drawing character.
    pub fn from_char(c: char) -> (r: Option<Tile>)
        ensures
            r == Tile::char_spec(c),
    {
        if c == '│' {
            Some(Tile { shape: Shape::I, orientation: Direction::North, whose_target: None })
        } else if c == '─' {
            Some(Tile { shape: Shape::I, orientation: Direction::East, whose_target: None })
        } else if c == '└' {
            Some(Tile { shape: Shape::L, orientation: Direction::North, whose_target: None })
        } else if c == '┌' {
            Some(Tile { shape: Shape::L, orientation: Direction::East, whose_target: None })
        } else if c == '┐' {
            Some(Tile { shape: Shape::L, orientation: Direction::South, whose_target: None })
        } else if c == '┘' {
            Some(Tile { shape: Shape::L, orientation: Direction::West, whose_target: None })
        } else if c == '├' {
            Some(Tile { shape: Shape::T, orientation: Direction::North, whose_target: None })
        } else if c == '┬' {
            Some(Tile { shape: Shape::T, orientation: Direction::East, whose_target: None })
        } else if c == '┤' {
            Some(Tile { shape: Shape::T, orientation: Direction::South, whose_target: None })
        } else if c == '┴' {
            Some(Tile { shape: Shape::T, orientation: Direction::West, whose_target: None })
        } else {
            None
        }
    }

    /// A random tile: uniform shape, uniform orientation, no target.
    pub fn random() -> (r: Tile)
        ensures
            r.whose_target is None,
    {
        let shape = Shape::random();
        let orientation = Direction::random();
        Tile { shape, orientation, whose_target: None }
    }
}

/// Composing directions is associative and commutative, North is its identity and every
/// direction has an inverse.
pub proof fn lemma_compose_group(a: Direction, b: Direction, c: Direction)
    ensures
        a.composed(b).composed(c) == a.composed(b.composed(c)),
        a.composed(b) == b.composed(a),
        Direction::North.composed(a) == a,
        a.composed(a.inverse()) == Direction::North,
{
}

/// Turning around twice faces the way one started, and a direction is never its own opposite.
pub proof fn lemma_opposite_involution(d: Direction)
    ensures
        d.opposite().opposite() == d,
        d.opposite() != d,
{
}

/// A step followed by a step in the opposite direction returns to the start.
pub proof fn lemma_step_back(pos: (usize, usize), d: Direction)
    requires
        step_defined(pos, d),
    ensures
        step_defined(step_spec(pos, d), d.opposite()),
        step_spec(step_spec(pos, d), d.opposite()) == pos,
{
}

/// A move that fits on the board, followed by the opposite move, also fits.
pub proof fn lemma_move_fits_back(pos: (usize, usize), d: Direction, dims: (usize, usize))
    requires
        move_fits(pos, d, dims),
        pos.0 < dims.1,
        pos.1 < dims.0,
    ensures
        step_defined(pos, d),
        move_fits(step_spec(pos, d), d.opposite(), dims),
{
}

/// Each direction of a tile is either open or walled, never both; no direction is listed twice
/// among the paths or among the walls, so together they list the four directions once each.
pub proof fn lemma_paths_walls_partition(t: Tile, d: Direction)
    ensures
        t.opens(d) != t.wall_seq().contains(d),
        t.path_seq().no_duplicates(),
        t.wall_seq().no_duplicates(),
        t.path_seq().len() + t.wall_seq().len() == 4,
{
    let ps = t.path_seq();
    let ws = t.wall_seq();
    let o = t.orientation;
    match t.shape {
        Shape::L => {
            assert(ps =~= seq![Direction::North.composed(o), Direction::East.composed(o)]);
            assert(ws =~= seq![Direction::South.composed(o), Direction::West.composed(o)]);
        },
        Shape::I => {
            assert(ps =~= seq![Direction::North.composed(o), Direction::South.composed(o)]);
            assert(ws =~= seq![Direction::East.composed(o), Direction::West.composed(o)]);
        },
        Shape::T => {
            assert(ps =~= seq![
                Direction::North.composed(o),
                Direction::East.composed(o),
                Direction::South.composed(o),
            ]);
            assert(ws =~= seq![Direction::West.composed(o)]);
        },
    }
    if t.opens(d) {
        let k = choose|k: int| 0 <= k < ps.len() && ps[k] == d;
        assert(!ws.contains(d)) by {
            if ws.contains(d) {
                let m = choose|m: int| 0 <= m < ws.len() && ws[m] == d;
            }
        }
    } else {
        assert(ws.contains(d)) by {
            let qn = Direction::from_quarter_turns(d.quarter_turns() - o.quarter_turns());
            assert(qn.composed(o) == d);
            match t.shape {
                Shape::L => {
                    if qn == Direction::North {
                        assert(ps[0] == d);
                    } else if qn == Direction::East {
                        assert(ps[1] == d);
                    } else if qn == Direction::South {
                        assert(ws[0] == d);
                    } else {
                        assert(ws[1] == d);
                    }
                },
                Shape::I => {
                    if qn == Direction::North {
                        assert(ps[0] == d);
                    } else if qn == Direction::South {
                        assert(ps[1] == d);
                    } else if qn == Direction::East {
                        assert(ws[0] == d);
                    } else {
                        assert(ws[1] == d);
                    }
                },
                Shape::T => {
                    if qn == Direction::North {
                        assert(ps[0] == d);
                    } else if qn == Direction::East {
                        assert(ps[1] == d);
                    } else if qn == Direction::South {
                        assert(ps[2] == d);
                    } else {
                        assert(ws[0] == d);
                    }
                },
            }
        }
    }
}

/// A direction is among the rotated directions exactly when the direction rotated back is among
/// the given ones.
pub proof fn lemma_rotate_all_contains(s: Seq<Direction>, by: Direction, d: Direction)
    ensures
        rotate_all(s, by).contains(d) == s.contains(d.composed(by.inverse())),
{
    let rs = rotate_all(s, by);
    if rs.contains(d) {
        let k = choose|k: int| 0 <= k < rs.len() && rs[k] == d;
        assert(s[k].composed(by) == d);
        assert(s[k] == d.composed(by.inverse()));
    }
    if s.contains(d.composed(by.inverse())) {
        let k = choose|k: int| 0 <= k < s.len() && s[k] == d.composed(by.inverse());
        assert(rs[k] == s[k].composed(by));
        assert(rs[k] == d);
    }
}

/// Rotating a tile clockwise turns its openings clockwise: the rotated tile is open towards
/// `d` exactly when the unturned tile was open towards the direction a quarter turn before `d`.
pub proof fn lemma_rotated_opens(t: Tile, d: Direction)
    ensures
        t.rotated().opens(d) == t.opens(d.composed(Direction::West)),
{
    let o = t.orientation;
    let o2 = Direction::East.composed(o);
    let c = t.shape.canonical_paths();
    lemma_rotate_all_contains(c, o2, d);
    lemma_rotate_all_contains(c, o, d.composed(Direction::West));
    assert(d.composed(o2.inverse()) == d.composed(Direction::West).composed(o.inverse()));
}

/// Four clockwise quarter turns give the tile back.
pub proof fn lemma_rotate_four_times(t: Tile)
    ensures
        t.rotated().rotated().rotated().rotated() == t,
{
}

} // verus!
