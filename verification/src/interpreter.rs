//! The executable interpreter, proved to follow the model in
//! [`crate::machine`].

use vstd::prelude::*;
use vstd::string::*;
use crate::direction::{Direction, State};
use crate::grid::{rows_view, source_lines, widest, parse, lemma_start_on_grid};
use crate::instruction::{Instruction, DIGIT_ZERO, HEAD, SPACE};
use crate::machine::{
    Machine, on_grid, advance, decimal_text, lemma_with_cell, lemma_dispatched_size,
    lemma_ended_stays,
};

verus! {

/// Why a source text makes no program.
#[derive(Debug, Clone, Copy, PartialEq, Eq, Structural)]
pub enum LoadError {
    /// The source has no line at all.
    NoRows,
    /// Every line of the source is empty.
    NoColumns,
}

/// An interpreter for one program: the grid, the worm on it, the two queues
/// between them, and the input and output buffers.
#[derive(Debug)]
pub struct SandWormInterpreter {
    program: Vec<Vec<u8>>,
    width: usize,
    height: usize,
    /// The cells of the body, from the tail to the neck.
    worm: Vec<(usize, usize)>,
    worm_head: (usize, usize),
    /// Swallowed instruction bytes, newest first.
    worm_out: Vec<u8>,
    /// Produced values, newest last.
    worm_in: Vec<u8>,
    direction: Direction,
    input: Vec<u8>,
    input_index: usize,
    output: Vec<u8>,
    state: State,
}

impl View for SandWormInterpreter {
    type V = Machine;

    closed spec fn view(&self) -> Machine {
        Machine {
            grid: rows_view(self.program@),
            body: self.worm@,
            head: self.worm_head,
            pending_values: self.worm_in@,
            pending_bytes: self.worm_out@,
            direction: self.direction,
            input: self.input@,
            cursor: self.input_index,
            output: self.output@,
            state: self.state,
        }
    }
}

impl SandWormInterpreter {
    /// Well-formedness: the state is a well-formed [`Machine`] and the
    /// recorded dimensions are those of the grid.
    pub closed spec fn wf(&self) -> bool {
        &&& self@.wf()
        &&& self.width == self@.width()
        &&& self.height == self@.height()
    }

    /// A well-formed interpreter is a well-formed machine.
    pub proof fn lemma_wf_machine(&self)
        requires
            self.wf(),
        ensures
            self@.wf(),
    {
    }

    /// Loads the program in `source`, to run on `input`.
    ///
    /// Fails if the grid would have no cell: if the source has no line, or
    /// only empty ones.
    pub fn new(source: &str, input: Vec<u8>) -> (made: Result<SandWormInterpreter, LoadError>)
        ensures
            match made {
                Ok(interpreter) => {
                    &&& source_lines(source.spec_bytes()).len() > 0
                    &&& widest(source_lines(source.spec_bytes())) > 0
                    &&& interpreter.wf()
                    &&& interpreter@ == Machine::loaded(source_lines(source.spec_bytes()), input@)
                },
                Err(LoadError::NoRows) => source_lines(source.spec_bytes()).len() == 0,
                Err(LoadError::NoColumns) => {
                    &&& source_lines(source.spec_bytes()).len() > 0
                    &&& widest(source_lines(source.spec_bytes())) == 0
                },
            },
    {
        let ghost lines = source_lines(source.spec_bytes());
        let (program, start) = parse(source);
        assert(rows_view(program@).len() == lines.len());
        if program.len() == 0 {
            return Err(LoadError::NoRows);
        }
        assert(rows_view(program@)[0].len() == widest(lines));
        let width: usize = program[0].len();
        if width == 0 {
            return Err(LoadError::NoColumns);
        }
        let height: usize = program.len();
        proof {
            lemma_start_on_grid(lines);
        }
        let interpreter = SandWormInterpreter {
            program,
            width,
            height,
            worm: Vec::new(),
            worm_head: start,
            worm_out: Vec::new(),
            worm_in: Vec::new(),
            direction: Direction::default(),
            input,
            input_index: 0,
            output: Vec::new(),
            state: State::default(),
        };
        assert(interpreter@ =~= Machine::loaded(lines, input@));
        Ok(interpreter)
    }

    /// In a well-formed interpreter every row is as long as the recorded
    /// width, and a position on the grid is one within the recorded bounds.
    proof fn lemma_rows(&self)
        requires
            self.wf(),
        ensures
            self.program@.len() == self.height,
            forall|row: int|
                0 <= row < self.height ==> (#[trigger] self.program@[row])@.len() == self.width,
            forall|pos: (usize, usize)| #[trigger]
                self@.contains(pos) <==> pos.0 < self.width && pos.1 < self.height,
            forall|pos: (usize, usize)| #[trigger]
                self@.contains(pos) <==> on_grid(self@.grid, pos),
    {
        let grid = self@.grid;
        assert forall|row: int| 0 <= row < self.height implies (
        #[trigger] self.program@[row])@.len() == self.width by {
            assert(grid[row].len() == grid[0].len());
        }
        assert forall|pos: (usize, usize)| #[trigger]
            self@.contains(pos) <==> on_grid(self@.grid, pos) by {
            if pos.1 < grid.len() {
                assert(grid[pos.1 as int].len() == grid[0].len());
            }
        }
    }

    /// The byte in the cell at `pos` (column, row).
    pub fn get(&self, pos: (usize, usize)) -> (value: u8)
        requires
            self.wf(),
            self@.contains(pos),
        ensures
            value == self@.cell(pos),
    {
        proof {
            self.lemma_rows();
        }
        self.program[pos.1][pos.0]
    }

    /// The cell at `pos` (column, row), for writing.
    pub fn get_mut(&mut self, pos: (usize, usize)) -> (cell: &mut u8)
        requires
            old(self).wf(),
            old(self)@.contains(pos),
        ensures
            *cell == old(self)@.cell(pos),
            final(self)@ == old(self)@.written(pos, *final(cell)),
            final(self).wf(),
    {
        proof {
            self.lemma_rows();
            assert forall|value: u8|
                (#[trigger] self@.written(pos, value)).wf() by {
                lemma_with_cell(self@.grid, pos, value);
            }
        }
        &mut self.program[pos.1][pos.0]
    }

    /// Writes `value` into the cell at `pos` (column, row).
    fn set(&mut self, pos: (usize, usize), value: u8)
        requires
            old(self).wf(),
            old(self)@.contains(pos),
        ensures
            final(self).wf(),
            final(self)@ == old(self)@.written(pos, value),
            final(self).width == old(self).width,
            final(self).height == old(self).height,
    {
        proof {
            self.lemma_rows();
            lemma_with_cell(self@.grid, pos, value);
        }
        *self.get_mut(pos) = value;
    }

    /// The cell one step ahead of the head, or `None` where that step would
    /// leave the grid on any side.
    pub fn front(&self) -> (front: Option<(usize, usize)>)
        requires
            self.wf(),
        ensures
            front == self@.ahead(),
    {
        proof {
            self.lemma_rows();
        }
        let column: usize = self.worm_head.0;
        let row: usize = self.worm_head.1;
        match self.direction {
            Direction::Up => if row > 0 {
                Some((column, row - 1))
            } else {
                None
            },
            Direction::Down => if row + 1 < self.height {
                Some((column, row + 1))
            } else {
                None
            },
            Direction::Left => if column > 0 {
                Some((column - 1, row))
            } else {
                None
            },
            Direction::Right => if column + 1 < self.width {
                Some((column + 1, row))
            } else {
                None
            },
        }
    }

    /// Moves the body up to `start`: every segment takes the place of the one
    /// in front of it and carries its value along, the neck moves to `start`,
    /// and the cell that the tail leaves is refilled from the swallowed bytes.
    fn retract(&mut self, start: (usize, usize))
        requires
            old(self).wf(),
            old(self)@.contains(start),
        ensures
            final(self).wf(),
            final(self)@ == old(self)@.retracted(old(self)@.body.push(start)),
            final(self).width == old(self).width,
            final(self).height == old(self).height,
    {
        let ghost before = self@;
        let ghost chain = before.body.push(start);
        let ghost fill = before.refill();
        let mut next: (usize, usize) = start;
        let mut i: usize = self.worm.len();
        assert(chain.subrange(0, i + 1) =~= chain);
        while i > 0
            invariant
                self.wf(),
                before.wf(),
                before.contains(start),
                chain == before.body.push(start),
                i <= before.body.len(),
                self@.body.len() == before.body.len(),
                next == chain[i as int],
                self@.contains(next),
                forall|j: int| 0 <= j < i ==> self@.body[j] == before.body[j],
                forall|j: int| i <= j < before.body.len() ==> self@.body[j] == chain[j + 1],
                advance(before.grid, chain, fill) == advance(
                    self@.grid,
                    chain.subrange(0, i + 1),
                    fill,
                ),
                self@ == (Machine { grid: self@.grid, body: self@.body, ..before }),
                self.width == old(self).width,
                self.height == old(self).height,
            decreases i,
        {
            i = i - 1;
            let segment: (usize, usize) = self.worm[i];
            let ghost body = self@.body;
            let ghost longer = chain.subrange(0, i + 2);
            assert(self@.contains(segment));
            let value: u8 = self.get(segment);
            self.set(next, value);
            self.worm[i] = next;
            proof {
                assert(longer.last() == next);
                assert(longer[longer.len() - 2] == segment);
                assert(longer.drop_last() =~= chain.subrange(0, i + 1));
                assert forall|j: int| 0 <= j < self@.body.len() implies self@.contains(
                    #[trigger] self@.body[j],
                ) by {
                    if j != i {
                        assert(self@.body[j] == body[j]);
                    }
                }
            }
            next = segment;
        }
        let fill: u8 = match self.worm_out.pop() {
            Some(byte) => byte,
            None => SPACE,
        };
        proof {
            assert(chain.subrange(0, 1).len() == 1);
            assert(chain.subrange(0, 1)[0] == next);
        }
        self.set(next, fill);
        proof {
            assert(self@.body =~= chain.drop_first());
        }
    }

    /// Takes the neck's value off the worm and returns it, without moving the
    /// head: the rest of the body moves up by one cell and the cell that the
    /// tail leaves is refilled. Returns zero for a worm without a body.
    pub fn shrink(&mut self) -> (value: u8)
        requires
            old(self).wf(),
        ensures
            final(self).wf(),
            value == old(self)@.neck_value(),
            final(self)@ == old(self)@.shrunk(),
    {
        match self.worm.pop() {
            Some(neck) => {
                assert(old(self)@.contains(old(self)@.body[old(self)@.body.len() - 1]));
                assert forall|j: int| 0 <= j < self@.body.len() implies self@.contains(
                    #[trigger] self@.body[j],
                ) by {
                    assert(self@.body[j] == old(self)@.body[j]);
                }
                let value: u8 = self.get(neck);
                assert(self@.body.push(neck) =~= old(self)@.body);
                self.retract(neck);
                value
            },
            None => 0,
        }
    }

    /// Moves the head to `front`. The worm grows by the newest pending value
    /// if there is one and slides otherwise.
    pub fn move_to(&mut self, front: (usize, usize))
        requires
            old(self).wf(),
            old(self)@.contains(front),
        ensures
            final(self).wf(),
            final(self)@ == old(self)@.moved(front),
    {
        let head: (usize, usize) = self.worm_head;
        match self.worm_in.pop() {
            Some(value) => {
                self.set(head, value);
                let ghost body = self@.body;
                self.worm.push(head);
                assert forall|j: int| 0 <= j < self@.body.len() implies self@.contains(
                    #[trigger] self@.body[j],
                ) by {
                    if j < body.len() {
                        assert(self@.body[j] == body[j]);
                    }
                }
            },
            None => {
                self.retract(head);
            },
        }
        assert(self.wf());
        assert(self.width == old(self).width && self.height == old(self).height);
        let ghost body = self@.body;
        self.worm_head = front;
        assert forall|j: int| 0 <= j < self@.body.len() implies self@.contains(
            #[trigger] self@.body[j],
        ) by {
            assert(self@.body[j] == body[j]);
        }
        self.set(front, HEAD);
    }

    /// Swallows an instruction byte.
    fn swallow(&mut self, byte: u8)
        requires
            old(self).wf(),
        ensures
            final(self).wf(),
            final(self)@ == old(self)@.swallowing(byte),
    {
        self.worm_out.insert(0, byte);
    }

    /// Hands a produced value to the worm.
    fn produce(&mut self, value: u8)
        requires
            old(self).wf(),
        ensures
            final(self).wf(),
            final(self)@ == old(self)@.producing(value),
    {
        self.worm_in.push(value);
    }

    /// Reads the next byte of the input, zero once it is exhausted.
    fn read_input(&mut self) -> (value: u8)
        requires
            old(self).wf(),
        ensures
            final(self).wf(),
            value == old(self)@.input_byte(),
            final(self)@ == old(self)@.input_consumed(),
    {
        let value: u8 = if self.input_index < self.input.len() {
            self.input[self.input_index]
        } else {
            0
        };
        if self.input_index < usize::MAX {
            self.input_index = self.input_index + 1;
        }
        value
    }

    /// Appends the decimal digits of `n` to the output.
    fn write_decimal(&mut self, n: u8)
        requires
            old(self).wf(),
        ensures
            final(self).wf(),
            final(self)@ == (Machine { output: old(self)@.output + decimal_text(n), ..old(self)@ }),
    {
        if n >= 100 {
            self.output.push(DIGIT_ZERO + n / 100);
        }
        if n >= 10 {
            self.output.push(DIGIT_ZERO + (n / 10) % 10);
        }
        self.output.push(DIGIT_ZERO + n % 10);
        assert(self@.output =~= old(self)@.output + decimal_text(n));
    }

    /// The value in the neck, zero for a worm without a body.
    pub fn neck(&self) -> (value: u8)
        requires
            self.wf(),
        ensures
            value == self@.neck_value(),
    {
        let len: usize = self.worm.len();
        if len > 0 {
            let neck: (usize, usize) = self.worm[len - 1];
            assert(self@.contains(self@.body[len - 1]));
            self.get(neck)
        } else {
            0
        }
    }

    /// Executes the instruction that `instruction` stands for, without
    /// moving the head.
    fn dispatch(&mut self, instruction: u8)
        requires
            old(self).wf(),
        ensures
            final(self).wf(),
            final(self)@ == old(self)@.dispatched(instruction),
    {
        match Instruction::decode(instruction) {
            Instruction::Digit(value) => {
                self.produce(value);
                self.swallow(instruction);
            },
            Instruction::Add => {
                let a: u8 = self.shrink();
                self.swallow(instruction);
                let b: u8 = self.shrink();
                self.produce(a.wrapping_add(b));
            },
            Instruction::Subtract => {
                let a: u8 = self.shrink();
                self.swallow(instruction);
                let b: u8 = self.shrink();
                self.produce(a.wrapping_sub(b));
            },
            Instruction::Face(direction) => {
                self.direction = direction;
                self.swallow(instruction);
            },
            Instruction::WriteNumber => {
                let n: u8 = self.shrink();
                self.write_decimal(n);
                self.swallow(instruction);
            },
            Instruction::WriteByte => {
                let n: u8 = self.shrink();
                self.output.push(n);
                self.swallow(instruction);
            },
            Instruction::ReadByte => {
                let value: u8 = self.read_input();
                self.produce(value);
                self.swallow(instruction);
            },
            Instruction::CopyNeck => {
                let value: u8 = self.neck();
                self.produce(value);
                self.swallow(instruction);
            },
            Instruction::MirrorBackslash => {
                let n: u8 = self.shrink();
                if n != 0 {
                    self.direction = self.direction.mirror_backslash();
                }
                self.swallow(instruction);
            },
            Instruction::MirrorSlash => {
                let n: u8 = self.shrink();
                if n != 0 {
                    self.direction = self.direction.mirror_slash();
                }
                self.swallow(instruction);
            },
            Instruction::Pass => {},
            Instruction::Space => {
                self.produce(SPACE);
                self.swallow(instruction);
            },
            Instruction::Literal(value) => {
                self.produce(value);
                self.swallow(instruction);
            },
        }
    }

    /// Takes one step: executes the cell ahead of the head and moves the head
    /// onto it. Where the head faces the edge of the grid the program ends
    /// instead, and once it has ended a step changes nothing.
    pub fn step_once(&mut self)
        requires
            old(self).wf(),
        ensures
            final(self).wf(),
            final(self)@ == old(self)@.stepped(),
            old(self)@.state != State::Running ==> final(self)@ == old(self)@,
    {
        if self.state != State::Running {
            return ;
        }
        let front: (usize, usize) = match self.front() {
            Some(front) => front,
            None => {
                self.state = State::EndOfProgram;
                return ;
            },
        };
        let instruction: u8 = self.get(front);
        self.dispatch(instruction);
        proof {
            lemma_dispatched_size(old(self)@, instruction);
        }
        self.move_to(front);
    }

    /// Takes up to `n` steps, stopping early once the program has ended.
    pub fn step(&mut self, n: usize)
        requires
            old(self).wf(),
        ensures
            final(self).wf(),
            final(self)@ == old(self)@.stepped_n(n as nat),
    {
        let mut i: usize = 0;
        while i < n
            invariant
                self.wf(),
                i <= n,
                self@.stepped_n((n - i) as nat) == old(self)@.stepped_n(n as nat),
            decreases n - i,
        {
            if self.state != State::Running {
                proof {
                    lemma_ended_stays(self@, (n - i) as nat);
                }
                return ;
            }
            self.step_once();
            i = i + 1;
        }
    }

    /// The rows of the grid, top row first.
    pub fn grid(&self) -> (rows: &Vec<Vec<u8>>)
        ensures
            rows_view(rows@) == self@.grid,
    {
        &self.program
    }

    /// The number of columns of the grid.
    pub fn width(&self) -> (width: usize)
        requires
            self.wf(),
        ensures
            width == self@.width(),
    {
        self.width
    }

    /// The number of rows of the grid.
    pub fn height(&self) -> (height: usize)
        requires
            self.wf(),
        ensures
            height == self@.height(),
    {
        self.height
    }

    /// The cells of the worm's body (column, row), from the tail to the neck.
    pub fn body(&self) -> (body: &Vec<(usize, usize)>)
        ensures
            body@ == self@.body,
    {
        &self.worm
    }

    /// The cell under the worm's head (column, row).
    pub fn head(&self) -> (head: (usize, usize))
        ensures
            head == self@.head,
    {
        self.worm_head
    }

    /// The way the worm faces.
    pub fn direction(&self) -> (direction: Direction)
        ensures
            direction == self@.direction,
    {
        self.direction
    }

    /// Whether the program can still take steps.
    pub fn state(&self) -> (state: State)
        ensures
            state == self@.state,
    {
        self.state
    }

    /// All input supplied so far, read or not.
    pub fn input(&self) -> (input: &Vec<u8>)
        ensures
            input@ == self@.input,
    {
        &self.input
    }

    /// How many reads of the input have happened.
    pub fn input_cursor(&self) -> (cursor: usize)
        ensures
            cursor == self@.cursor,
    {
        self.input_index
    }

    /// All output so far.
    pub fn output(&self) -> (output: &Vec<u8>)
        ensures
            output@ == self@.output,
    {
        &self.output
    }

    /// The values produced and not yet installed, newest last.
    pub fn pending_values(&self) -> (values: &Vec<u8>)
        ensures
            values@ == self@.pending_values,
    {
        &self.worm_in
    }

    /// The bytes swallowed and not yet laid down again, newest first.
    pub fn pending_bytes(&self) -> (bytes: &Vec<u8>)
        ensures
            bytes@ == self@.pending_bytes,
    {
        &self.worm_out
    }

    /// The values the worm carries, from the tail to the neck.
    pub fn body_values(&self) -> (values: Vec<u8>)
        requires
            self.wf(),
        ensures
            values@ == self@.body_values(),
    {
        let mut values: Vec<u8> = Vec::new();
        let mut i: usize = 0;
        while i < self.worm.len()
            invariant
                self.wf(),
                i <= self.worm.len(),
                values@.len() == i,
                forall|j: int| 0 <= j < i ==> values@[j] == self@.cell(self@.body[j]),
            decreases self.worm.len() - i,
        {
            assert(self@.contains(self@.body[i as int]));
            let value: u8 = self.get(self.worm[i]);
            values.push(value);
            i = i + 1;
        }
        assert(values@ =~= self@.body_values());
        values
    }

    /// Appends `bytes` to the input. What was read before stays read; reads
    /// that went past the old end of the input are not made up for.
    pub fn feed_input(&mut self, bytes: &[u8])
        ensures
            final(self)@ == (Machine { input: old(self)@.input + bytes@, ..old(self)@ }),
            old(self).wf() ==> final(self).wf(),
    {
        let mut i: usize = 0;
        while i < bytes.len()
            invariant
                i <= bytes.len(),
                self@ == (Machine {
                    input: old(self)@.input + bytes@.subrange(0, i as int),
                    ..old(self)@
                }),
                old(self).wf() ==> self.wf(),
            decreases bytes.len() - i,
        {
            let ghost before = self@;
            self.input.push(bytes[i]);
            i = i + 1;
            assert(self@.input =~= old(self)@.input + bytes@.subrange(0, i as int));
            assert(self@.grid == before.grid && self@.body == before.body && self@.head
                == before.head);
        }
        assert(bytes@.subrange(0, i as int) =~= bytes@);
    }
}

} // verus!
