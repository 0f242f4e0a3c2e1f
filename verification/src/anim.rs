//! Animation synchronization: which animations a game action starts, and which tiles a running
//! insert animation offsets. The animation clocks themselves are kept by the renderer.

use vstd::prelude::*;

use crate::tile::Direction;

verus! {

/// Checks the direction in which the tile rotate animation spins
#[derive(PartialEq, Eq, Structural, Clone, Copy, Debug)]
pub enum RotateDir {
    /// Clockwise
    CW,
    /// Counterclockwise
    CCW,
}

/// An animation to start, shared with the other players
#[derive(PartialEq, Eq, Structural, Clone, Copy, Debug)]
pub enum AnimSync {
    /// The loose tile rotated
    Rotate(RotateDir),
    /// The loose tile was inserted, offsetting the given row/column in the given direction
    Insert(Direction, usize),
}

/// Geometry of the loose tile insert animation: tiles are offset towards `offset_dir`, along
/// the row or column `coordinate`.
#[derive(PartialEq, Eq, Structural, Clone, Copy, Debug)]
pub struct InsertOffset {
    /// Direction in which the tiles are currently offset
    /// (same as the edge on which the loose tile started)
    pub offset_dir: Direction,
    /// Row/column of the offset tiles
    pub coordinate: usize,
}

impl InsertOffset {
    /// The state before any insert happened.
    pub fn new() -> (r: InsertOffset)
        ensures
            r == (InsertOffset { offset_dir: Direction::North, coordinate: 0 }),
    {
        InsertOffset { offset_dir: Direction::North, coordinate: 0 }
    }

    /// Restarts the animation for an insert along `coord` towards `dir`.
    pub fn reset(&mut self, dir: Direction, coord: usize)
        ensures
            *final(self) == (InsertOffset { offset_dir: dir, coordinate: coord }),
    {
        self.offset_dir = dir;
        self.coordinate = coord;
    }

    /// Whether the tile at `(row, col)` is offset, given whether the animation is still running.
    pub open spec fn applies_to_pos_spec(self, running: bool, pos: (usize, usize)) -> bool {
        running && match self.offset_dir {
            Direction::North | Direction::South => pos.1 == self.coordinate,
            Direction::East | Direction::West => pos.0 == self.coordinate,
        }
    }

    /// Checks whether the tile at `(row, col)` is offset by a running animation
    pub fn applies_to_pos(&self, running: bool, pos: (usize, usize)) -> (r: bool)
        ensures
            r == self.applies_to_pos_spec(running, pos),
    {
        if !running {
            return false;
        }
        let (row, col) = pos;
        let should_be_coord = match self.offset_dir {
            Direction::North | Direction::South => col,
            Direction::East | Direction::West => row,
        };
        should_be_coord == self.coordinate
    }

    /// Whether the loose tile at the given insert guide is offset, given whether the animation
    /// is still running.
    pub open spec fn applies_to_loose_spec(self, running: bool, loose: (Direction, usize)) -> bool {
        running && (loose.0 == self.offset_dir || loose.0 == self.offset_dir.opposite()) && (
        self.coordinate == 2 * loose.1 + 1)
    }

    /// Checks whether the loose tile, sitting at the given insert guide, is offset by a running
    /// animation
    pub fn applies_to_loose(&self, running: bool, loose: (Direction, usize)) -> (r: bool)
        requires
            running && (loose.0 == self.offset_dir || loose.0 == self.offset_dir.opposite()) ==> 2
                * loose.1 + 1 <= usize::MAX,
        ensures
            r == self.applies_to_loose_spec(running, loose),
    {
        if !running {
            return false;
        }
        let (dir, guide_idx) = loose;
        if dir == self.offset_dir || dir == self.offset_dir.compose(Direction::South) {
            self.coordinate == 2 * guide_idx + 1
        } else {
            false
        }
    }
}

} // verus!
