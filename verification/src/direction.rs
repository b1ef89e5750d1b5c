//! The heading of the worm and the execution state of a program.

use vstd::prelude::*;

verus! {

/// The way the worm is facing. The cell one step that way from the head is
/// the one executed next.
#[derive(Debug, Clone, Copy, PartialEq, Eq, Structural)]
pub enum Direction {
    Up,
    Down,
    Left,
    Right,
}

/// Whether a program can still take steps.
#[derive(Debug, Clone, Copy, PartialEq, Eq, Structural)]
pub enum State {
    /// The worm is on the grid and the next step will be attempted.
    Running,
    /// The worm tried to leave the grid. Terminal.
    EndOfProgram,
}

impl Default for Direction {
    fn default() -> (d: Direction)
        ensures
            d == Direction::Right,
    {
        Direction::Right
    }
}

impl Default for State {
    fn default() -> (s: State)
        ensures
            s == State::Running,
    {
        State::Running
    }
}

impl Direction {
    /// Change of the column when moving one cell this way.
    pub open spec fn column_delta(self) -> int {
        match self {
            Direction::Left => -1,
            Direction::Right => 1,
            _ => 0,
        }
    }

    /// Change of the row when moving one cell this way. Row 0 is the top row.
    pub open spec fn row_delta(self) -> int {
        match self {
            Direction::Up => -1,
            Direction::Down => 1,
            _ => 0,
        }
    }

    /// The heading after bouncing off a `\` mirror.
    pub open spec fn mirrored_backslash(self) -> Direction {
        match self {
            Direction::Up => Direction::Left,
            Direction::Down => Direction::Right,
            Direction::Left => Direction::Up,
            Direction::Right => Direction::Down,
        }
    }

    /// The heading after bouncing off a `/` mirror.
    pub open spec fn mirrored_slash(self) -> Direction {
        match self {
            Direction::Up => Direction::Right,
            Direction::Down => Direction::Left,
            Direction::Left => Direction::Down,
            Direction::Right => Direction::Up,
        }
    }

    /// Bounces off a `\` mirror.
    pub fn mirror_backslash(self) -> (d: Direction)
        ensures
            d == self.mirrored_backslash(),
    {
        match self {
            Direction::Up => Direction::Left,
            Direction::Down => Direction::Right,
            Direction::Left => Direction::Up,
            Direction::Right => Direction::Down,
        }
    }

    /// Bounces off a `/` mirror.
    pub fn mirror_slash(self) -> (d: Direction)
        ensures
            d == self.mirrored_slash(),
    {
        match self {
            Direction::Up => Direction::Right,
            Direction::Down => Direction::Left,
            Direction::Left => Direction::Down,
            Direction::Right => Direction::Up,
        }
    }
}

} // verus!
