//! The mathematical model of a running program.
//!
//! A [`Machine`] is the whole state of an interpreter as plain mathematical
//! values, and [`Machine::stepped`] is the meaning of one step. Everything the
//! executable interpreter does is stated against these definitions.

use vstd::prelude::*;
use crate::direction::{Direction, State};
use crate::grid::{grid_of, start_of};
use crate::instruction::{Instruction, DIGIT_ZERO, HEAD, SPACE};

verus! {

/// The byte in the cell at `pos` (column, row).
pub open spec fn cell_at(grid: Seq<Seq<u8>>, pos: (usize, usize)) -> u8 {
    grid[pos.1 as int][pos.0 as int]
}

/// The grid with the cell at `pos` (column, row) holding `value`.
pub open spec fn with_cell(grid: Seq<Seq<u8>>, pos: (usize, usize), value: u8) -> Seq<Seq<u8>> {
    grid.update(pos.1 as int, grid[pos.1 as int].update(pos.0 as int, value))
}

/// Whether `pos` (column, row) names a cell of the grid.
pub open spec fn on_grid(grid: Seq<Seq<u8>>, pos: (usize, usize)) -> bool {
    pos.1 < grid.len() && pos.0 < grid[pos.1 as int].len()
}

/// Whether every row of the grid has the same length as the first.
pub open spec fn rectangular(grid: Seq<Seq<u8>>) -> bool {
    forall|row: int| 0 <= row < grid.len() ==> (#[trigger] grid[row]).len() == grid[0].len()
}

/// Moves the values held along `chain` one cell towards its front.
///
/// `chain` lists cells from the tail end to the front end. Starting at the
/// front, every cell takes the value of the cell behind it; the tail cell,
/// which nothing is behind, takes `fill`. The writes happen one after another
/// in that order, which matters only where the chain visits a cell twice.
pub open spec fn advance(grid: Seq<Seq<u8>>, chain: Seq<(usize, usize)>, fill: u8) -> Seq<Seq<u8>>
    decreases chain.len(),
{
    if chain.len() == 0 {
        grid
    } else if chain.len() == 1 {
        with_cell(grid, chain[0], fill)
    } else {
        let behind = cell_at(grid, chain[chain.len() - 2]);
        advance(with_cell(grid, chain.last(), behind), chain.drop_last(), fill)
    }
}

/// The decimal digits of `n` as ASCII bytes, without leading zeros.
pub open spec fn decimal_text(n: u8) -> Seq<u8> {
    if n >= 100 {
        seq![
            (DIGIT_ZERO + n / 100) as u8,
            (DIGIT_ZERO + (n / 10) % 10) as u8,
            (DIGIT_ZERO + n % 10) as u8,
        ]
    } else if n >= 10 {
        seq![(DIGIT_ZERO + n / 10) as u8, (DIGIT_ZERO + n % 10) as u8]
    } else {
        seq![(DIGIT_ZERO + n) as u8]
    }
}

/// The sum of two bytes modulo 256.
pub open spec fn wrapping_sum(a: u8, b: u8) -> u8 {
    ((a + b) % 256) as u8
}

/// The difference of two bytes modulo 256.
pub open spec fn wrapping_difference(a: u8, b: u8) -> u8 {
    ((a - b) % 256) as u8
}

/// Writing a cell of a rectangular grid keeps it rectangular and of the same
/// size, changes that cell and no other.
pub proof fn lemma_with_cell(grid: Seq<Seq<u8>>, pos: (usize, usize), value: u8)
    requires
        rectangular(grid),
        on_grid(grid, pos),
    ensures
        rectangular(with_cell(grid, pos, value)),
        with_cell(grid, pos, value).len() == grid.len(),
        with_cell(grid, pos, value)[0].len() == grid[0].len(),
        cell_at(with_cell(grid, pos, value), pos) == value,
        forall|other: (usize, usize)|
            on_grid(grid, other) ==> on_grid(with_cell(grid, pos, value), other),
        forall|other: (usize, usize)|
            on_grid(grid, other) && other != pos ==> #[trigger] cell_at(
                with_cell(grid, pos, value),
                other,
            ) == cell_at(grid, other),
{
    let after = with_cell(grid, pos, value);
    assert forall|row: int| 0 <= row < after.len() implies (#[trigger] after[row]).len()
        == after[0].len() by {
        assert(grid[row].len() == grid[0].len());
        assert(grid[pos.1 as int].len() == grid[0].len());
    }
    assert(grid[pos.1 as int].len() == grid[0].len());
    assert forall|other: (usize, usize)| on_grid(grid, other) implies on_grid(after, other) by {
        assert(grid[other.1 as int].len() == grid[0].len());
    }
}

/// The whole state of a program in execution.
#[verifier::ext_equal]
pub struct Machine {
    /// The rows of the grid, top row first; each row left to right.
    pub grid: Seq<Seq<u8>>,
    /// The cells of the worm's body (column, row), from the tail to the neck.
    pub body: Seq<(usize, usize)>,
    /// The cell under the worm's head.
    pub head: (usize, usize),
    /// Values produced and not yet installed in a segment. A stack: the last
    /// element is taken first.
    pub pending_values: Seq<u8>,
    /// Instruction bytes swallowed and not yet laid down again. A queue:
    /// bytes enter at index 0 and leave from the far end.
    pub pending_bytes: Seq<u8>,
    /// The way the worm faces.
    pub direction: Direction,
    /// All input ever supplied.
    pub input: Seq<u8>,
    /// How many reads of the input have happened (capped at `usize::MAX`).
    pub cursor: usize,
    /// All output so far.
    pub output: Seq<u8>,
    /// Whether the program can still take steps.
    pub state: State,
}

impl Machine {
    /// The machine that a program starts as: the grid made of the lines of
    /// its source, a worm without a body at the start, facing right, with
    /// both queues and the output empty and nothing read from `input`.
    pub open spec fn loaded(lines: Seq<Seq<u8>>, input: Seq<u8>) -> Machine {
        Machine {
            grid: grid_of(lines),
            body: Seq::empty(),
            head: start_of(lines),
            pending_values: Seq::empty(),
            pending_bytes: Seq::empty(),
            direction: Direction::Right,
            input,
            cursor: 0,
            output: Seq::empty(),
            state: State::Running,
        }
    }

    /// The number of columns.
    pub open spec fn width(self) -> nat {
        if self.grid.len() > 0 {
            self.grid[0].len()
        } else {
            0
        }
    }

    /// The number of rows.
    pub open spec fn height(self) -> nat {
        self.grid.len()
    }

    /// Whether `pos` (column, row) lies on the grid.
    pub open spec fn contains(self, pos: (usize, usize)) -> bool {
        pos.0 < self.width() && pos.1 < self.height()
    }

    /// The byte in the cell at `pos`.
    pub open spec fn cell(self, pos: (usize, usize)) -> u8 {
        cell_at(self.grid, pos)
    }

    /// Well-formedness: the grid is a rectangle whose sides fit the
    /// coordinates, and the head and every segment of the body lie on it.
    pub open spec fn wf(self) -> bool {
        &&& rectangular(self.grid)
        &&& self.width() <= usize::MAX
        &&& self.height() <= usize::MAX
        &&& self.contains(self.head)
        &&& forall|i: int| 0 <= i < self.body.len() ==> self.contains(#[trigger] self.body[i])
    }

    /// The machine with the cell at `pos` holding `value`.
    pub open spec fn written(self, pos: (usize, usize), value: u8) -> Machine {
        Machine { grid: with_cell(self.grid, pos, value), ..self }
    }

    /// The values the worm carries, from the tail to the neck.
    pub open spec fn body_values(self) -> Seq<u8> {
        Seq::new(self.body.len(), |i: int| self.cell(self.body[i]))
    }

    /// The value in the neck, the segment next to the head; zero for a worm
    /// without a body.
    pub open spec fn neck_value(self) -> u8 {
        if self.body.len() > 0 {
            self.cell(self.body.last())
        } else {
            0
        }
    }

    /// The byte that goes into the next vacated cell: the oldest swallowed
    /// byte, or a space if none is waiting.
    pub open spec fn refill(self) -> u8 {
        if self.pending_bytes.len() > 0 {
            self.pending_bytes.last()
        } else {
            SPACE
        }
    }

    /// The machine after `byte` was swallowed.
    pub open spec fn swallowing(self, byte: u8) -> Machine {
        Machine { pending_bytes: self.pending_bytes.insert(0, byte), ..self }
    }

    /// The machine after `value` was produced.
    pub open spec fn producing(self, value: u8) -> Machine {
        Machine { pending_values: self.pending_values.push(value), ..self }
    }

    /// The machine after the values along `chain` moved one cell towards its
    /// front, the tail cell of the chain was refilled and left the body.
    pub open spec fn retracted(self, chain: Seq<(usize, usize)>) -> Machine {
        Machine {
            grid: advance(self.grid, chain, self.refill()),
            body: chain.drop_first(),
            pending_bytes: if self.pending_bytes.len() > 0 {
                self.pending_bytes.drop_last()
            } else {
                self.pending_bytes
            },
            ..self
        }
    }

    /// The machine after the neck's value was taken off the worm: the rest of
    /// the body moves up by one cell and the tail cell is refilled. The value
    /// taken is [`Machine::neck_value`]. A worm without a body is unchanged.
    pub open spec fn shrunk(self) -> Machine {
        if self.body.len() == 0 {
            self
        } else {
            self.retracted(self.body)
        }
    }

    /// The machine after the body moved up to where the head is, without
    /// getting longer.
    pub open spec fn slid(self) -> Machine {
        self.retracted(self.body.push(self.head))
    }

    /// The machine after the newest produced value was installed where the
    /// head is, as the new neck.
    pub open spec fn grown(self) -> Machine {
        Machine {
            grid: with_cell(self.grid, self.head, self.pending_values.last()),
            body: self.body.push(self.head),
            pending_values: self.pending_values.drop_last(),
            ..self
        }
    }

    /// The machine after the head moved to `front`: the worm grows if a value
    /// is pending and slides otherwise, and `front` gets the head's mark.
    pub open spec fn moved(self, front: (usize, usize)) -> Machine {
        let behind = if self.pending_values.len() > 0 {
            self.grown()
        } else {
            self.slid()
        };
        Machine { grid: with_cell(behind.grid, front, HEAD), head: front, ..behind }
    }

    /// The cell one step ahead of the head, if that is still on the grid.
    /// A step below zero or beyond the largest coordinate there is leaves
    /// the grid like any other step over its edge.
    pub open spec fn ahead(self) -> Option<(usize, usize)> {
        let column = self.head.0 + self.direction.column_delta();
        let row = self.head.1 + self.direction.row_delta();
        if 0 <= column < self.width() && 0 <= row < self.height() && column <= usize::MAX && row
            <= usize::MAX {
            Some((column as usize, row as usize))
        } else {
            None
        }
    }

    /// The byte that a read of the input yields: the byte under the cursor,
    /// or zero past the end.
    pub open spec fn input_byte(self) -> u8 {
        if self.cursor < self.input.len() {
            self.input[self.cursor as int]
        } else {
            0
        }
    }

    /// The machine after one read of the input.
    pub open spec fn input_consumed(self) -> Machine {
        Machine {
            cursor: if self.cursor < usize::MAX {
                (self.cursor + 1) as usize
            } else {
                self.cursor
            },
            ..self
        }
    }

    /// The machine after the effect of the instruction that `byte` stands
    /// for, before the head moves.
    pub open spec fn dispatched(self, byte: u8) -> Machine {
        match Instruction::decoded(byte) {
            Instruction::Digit(value) => self.producing(value).swallowing(byte),
            Instruction::Add => {
                let rest = self.shrunk().swallowing(byte);
                rest.shrunk().producing(wrapping_sum(self.neck_value(), rest.neck_value()))
            },
            Instruction::Subtract => {
                let rest = self.shrunk().swallowing(byte);
                rest.shrunk().producing(wrapping_difference(self.neck_value(), rest.neck_value()))
            },
            Instruction::Face(direction) => Machine { direction, ..self }.swallowing(byte),
            Instruction::WriteNumber => {
                let rest = self.shrunk();
                Machine {
                    output: rest.output + decimal_text(self.neck_value()),
                    ..rest
                }.swallowing(byte)
            },
            Instruction::WriteByte => {
                let rest = self.shrunk();
                Machine { output: rest.output.push(self.neck_value()), ..rest }.swallowing(byte)
            },
            Instruction::ReadByte => self.input_consumed().producing(self.input_byte()).swallowing(
                byte,
            ),
            Instruction::CopyNeck => self.producing(self.neck_value()).swallowing(byte),
            Instruction::MirrorBackslash => {
                let rest = self.shrunk();
                Machine {
                    direction: if self.neck_value() != 0 {
                        rest.direction.mirrored_backslash()
                    } else {
                        rest.direction
                    },
                    ..rest
                }.swallowing(byte)
            },
            Instruction::MirrorSlash => {
                let rest = self.shrunk();
                Machine {
                    direction: if self.neck_value() != 0 {
                        rest.direction.mirrored_slash()
                    } else {
                        rest.direction
                    },
                    ..rest
                }.swallowing(byte)
            },
            Instruction::Pass => self,
            Instruction::Space => self.producing(SPACE).swallowing(byte),
            Instruction::Literal(value) => self.producing(value).swallowing(byte),
        }
    }

    /// The machine after one step.
    ///
    /// A machine that has ended stays as it is. A running machine whose head
    /// faces the edge of the grid ends, with nothing else changed. Otherwise
    /// the cell ahead is executed and the head moves onto it.
    pub open spec fn stepped(self) -> Machine {
        if self.state != State::Running {
            self
        } else {
            match self.ahead() {
                None => Machine { state: State::EndOfProgram, ..self },
                Some(front) => self.dispatched(self.cell(front)).moved(front),
            }
        }
    }

    /// The machine after `n` steps.
    pub open spec fn stepped_n(self, n: nat) -> Machine
        decreases n,
    {
        if n == 0 {
            self
        } else {
            self.stepped().stepped_n((n - 1) as nat)
        }
    }
}

/// Moving values along a chain of cells of a rectangular grid keeps the grid
/// rectangular and of the same size.
pub proof fn lemma_advance_size(grid: Seq<Seq<u8>>, chain: Seq<(usize, usize)>, fill: u8)
    requires
        rectangular(grid),
        forall|i: int| 0 <= i < chain.len() ==> on_grid(grid, #[trigger] chain[i]),
    ensures
        rectangular(advance(grid, chain, fill)),
        advance(grid, chain, fill).len() == grid.len(),
        grid.len() > 0 ==> advance(grid, chain, fill)[0].len() == grid[0].len(),
    decreases chain.len(),
{
    if chain.len() == 1 {
        lemma_with_cell(grid, chain[0], fill);
    } else if chain.len() > 1 {
        let behind = cell_at(grid, chain[chain.len() - 2]);
        let next = with_cell(grid, chain.last(), behind);
        lemma_with_cell(grid, chain.last(), behind);
        assert forall|i: int| 0 <= i < chain.drop_last().len() implies on_grid(
            next,
            #[trigger] chain.drop_last()[i],
        ) by {
            assert(on_grid(grid, chain[i]));
        }
        lemma_advance_size(next, chain.drop_last(), fill);
    }
}

/// Taking a segment off the worm keeps the machine well-formed and the grid
/// of the same size.
pub proof fn lemma_shrunk_size(m: Machine)
    requires
        m.wf(),
    ensures
        m.shrunk().wf(),
        m.shrunk().width() == m.width(),
        m.shrunk().height() == m.height(),
        m.shrunk().head == m.head,
{
    if m.body.len() > 0 {
        assert forall|i: int| 0 <= i < m.body.len() implies on_grid(
            m.grid,
            #[trigger] m.body[i],
        ) by {
            assert(m.contains(m.body[i]));
            assert(m.grid[m.body[i].1 as int].len() == m.grid[0].len());
        }
        lemma_advance_size(m.grid, m.body, m.refill());
        assert forall|i: int| 0 <= i < m.shrunk().body.len() implies m.shrunk().contains(
            #[trigger] m.shrunk().body[i],
        ) by {
            assert(m.contains(m.body[i + 1]));
        }
    }
}

/// Executing an instruction keeps the machine well-formed, the grid of the
/// same size and the head where it is.
pub proof fn lemma_dispatched_size(m: Machine, byte: u8)
    requires
        m.wf(),
    ensures
        m.dispatched(byte).wf(),
        m.dispatched(byte).width() == m.width(),
        m.dispatched(byte).height() == m.height(),
        m.dispatched(byte).head == m.head,
{
    lemma_shrunk_size(m);
    lemma_shrunk_size(m.shrunk().swallowing(byte));
}

/// A machine that has ended is not changed by any number of steps.
pub proof fn lemma_ended_stays(m: Machine, n: nat)
    requires
        m.state != State::Running,
    ensures
        m.stepped_n(n) == m,
    decreases n,
{
    if n > 0 {
        lemma_ended_stays(m, (n - 1) as nat);
    }
}

} // verus!
