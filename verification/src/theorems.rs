//! What holds of every program: theorems about the model in
//! [`crate::machine`].

use vstd::prelude::*;
use crate::direction::{Direction, State};
use crate::grid::{
    grid_of, start_of, widest, lemma_start_on_grid, theorem_rows_are_padded_lines,
};
use crate::instruction::{Instruction, HEAD, SPACE, UNDERSCORE, PLUS, MINUS};
use crate::machine::{
    Machine, cell_at, with_cell, on_grid, rectangular, advance, wrapping_sum,
    wrapping_difference, lemma_with_cell, lemma_advance_size, lemma_shrunk_size,
    lemma_dispatched_size, lemma_ended_stays,
};

verus! {

/// Moving values along a chain leaves every cell off the chain as it was.
pub proof fn lemma_advance_elsewhere(
    grid: Seq<Seq<u8>>,
    chain: Seq<(usize, usize)>,
    fill: u8,
    pos: (usize, usize),
)
    requires
        rectangular(grid),
        forall|i: int| 0 <= i < chain.len() ==> on_grid(grid, #[trigger] chain[i]),
        on_grid(grid, pos),
        forall|i: int| 0 <= i < chain.len() ==> #[trigger] chain[i] != pos,
    ensures
        cell_at(advance(grid, chain, fill), pos) == cell_at(grid, pos),
    decreases chain.len(),
{
    if chain.len() == 1 {
        assert(chain[0] != pos);
        lemma_with_cell(grid, chain[0], fill);
    } else if chain.len() > 1 {
        let behind = cell_at(grid, chain[chain.len() - 2]);
        let next = with_cell(grid, chain.last(), behind);
        assert(chain[chain.len() - 1] != pos);
        lemma_with_cell(grid, chain.last(), behind);
        assert forall|i: int| 0 <= i < chain.drop_last().len() implies on_grid(
            next,
            #[trigger] chain.drop_last()[i],
        ) && chain.drop_last()[i] != pos by {
            assert(on_grid(grid, chain[i]));
            assert(chain[i] != pos);
        }
        lemma_advance_elsewhere(next, chain.drop_last(), fill, pos);
    }
}

/// Where the front cell of a chain occurs nowhere else in it, moving the
/// values along the chain leaves in the front cell the value that was in the
/// cell behind it.
pub proof fn lemma_advance_front(grid: Seq<Seq<u8>>, chain: Seq<(usize, usize)>, fill: u8)
    requires
        rectangular(grid),
        forall|i: int| 0 <= i < chain.len() ==> on_grid(grid, #[trigger] chain[i]),
        chain.len() >= 2,
        forall|i: int| 0 <= i < chain.len() - 1 ==> #[trigger] chain[i] != chain.last(),
    ensures
        cell_at(advance(grid, chain, fill), chain.last()) == cell_at(
            grid,
            chain[chain.len() - 2],
        ),
{
    let behind = cell_at(grid, chain[chain.len() - 2]);
    let next = with_cell(grid, chain.last(), behind);
    assert(on_grid(grid, chain[chain.len() - 1]));
    lemma_with_cell(grid, chain.last(), behind);
    assert forall|i: int| 0 <= i < chain.drop_last().len() implies on_grid(
        next,
        #[trigger] chain.drop_last()[i],
    ) && chain.drop_last()[i] != chain.last() by {
        assert(on_grid(grid, chain[i]));
        assert(chain[i] != chain.last());
    }
    lemma_advance_elsewhere(next, chain.drop_last(), fill, chain.last());
}

/// Where a chain visits no cell twice, moving the values along it does what
/// one expects: the tail cell holds `fill`, every other cell of the chain
/// holds what the cell behind it held, and the rest of the grid is as it was.
pub proof fn lemma_advance_simple_chain(grid: Seq<Seq<u8>>, chain: Seq<(usize, usize)>, fill: u8)
    requires
        rectangular(grid),
        forall|i: int| 0 <= i < chain.len() ==> on_grid(grid, #[trigger] chain[i]),
        chain.len() >= 1,
        chain.no_duplicates(),
    ensures
        cell_at(advance(grid, chain, fill), chain[0]) == fill,
        forall|i: int|
            1 <= i < chain.len() ==> cell_at(advance(grid, chain, fill), #[trigger] chain[i])
                == cell_at(grid, chain[i - 1]),
        forall|pos: (usize, usize)|
            on_grid(grid, pos) && !chain.contains(pos) ==> #[trigger] cell_at(
                advance(grid, chain, fill),
                pos,
            ) == cell_at(grid, pos),
    decreases chain.len(),
{
    let after = advance(grid, chain, fill);
    assert forall|pos: (usize, usize)| on_grid(grid, pos) && !chain.contains(pos) implies cell_at(
        after,
        pos,
    ) == cell_at(grid, pos) by {
        lemma_advance_elsewhere(grid, chain, fill, pos);
    }
    if chain.len() == 1 {
        lemma_with_cell(grid, chain[0], fill);
    } else {
        let behind = cell_at(grid, chain[chain.len() - 2]);
        let next = with_cell(grid, chain.last(), behind);
        let front = chain.drop_last();
        assert(on_grid(grid, chain[chain.len() - 1]));
        lemma_with_cell(grid, chain.last(), behind);
        assert forall|i: int| 0 <= i < front.len() implies on_grid(next, #[trigger] front[i]) by {
            assert(on_grid(grid, chain[i]));
        }
        assert(front.no_duplicates()) by {
            assert forall|i: int, j: int| 0 <= i < front.len() && 0 <= j < front.len() && i != j
                implies front[i] != front[j] by {
                assert(chain[i] != chain[j]);
            }
        }
        lemma_advance_simple_chain(next, front, fill);
        lemma_advance_front(grid, chain, fill);
        assert forall|i: int| 1 <= i < chain.len() implies cell_at(after, #[trigger] chain[i])
            == cell_at(grid, chain[i - 1]) by {
            if i < chain.len() - 1 {
                assert(front[i] == chain[i]);
                assert(front[i - 1] == chain[i - 1]);
                assert(cell_at(after, front[i]) == cell_at(next, front[i - 1]));
                assert(chain[i - 1] != chain[chain.len() - 1]);
                assert(on_grid(grid, chain[i - 1]));
            }
        }
        assert(front[0] == chain[0]);
    }
}

/// A step keeps a well-formed machine well-formed and the grid of the same
/// size.
pub proof fn theorem_step_keeps_shape(m: Machine)
    requires
        m.wf(),
    ensures
        m.stepped().wf(),
        m.stepped().width() == m.width(),
        m.stepped().height() == m.height(),
{
    if m.state == State::Running && m.ahead() is Some {
        let front = m.ahead()->0;
        let d = m.dispatched(m.cell(front));
        lemma_dispatched_size(m, m.cell(front));
        lemma_moved_size(d, front);
    }
}

/// Moving the head keeps the machine well-formed and the grid of the same
/// size, and leaves the head's mark under the head.
pub proof fn lemma_moved_size(m: Machine, front: (usize, usize))
    requires
        m.wf(),
        m.contains(front),
    ensures
        m.moved(front).wf(),
        m.moved(front).width() == m.width(),
        m.moved(front).height() == m.height(),
        m.moved(front).head == front,
        m.moved(front).cell(front) == HEAD,
{
    lemma_on_grid(m);
    let behind = if m.pending_values.len() > 0 {
        m.grown()
    } else {
        m.slid()
    };
    if m.pending_values.len() > 0 {
        lemma_with_cell(m.grid, m.head, m.pending_values.last());
        assert forall|i: int| 0 <= i < behind.body.len() implies behind.contains(
            #[trigger] behind.body[i],
        ) by {
            if i < m.body.len() {
                assert(m.contains(m.body[i]));
            }
        }
    } else {
        let chain = m.body.push(m.head);
        assert forall|i: int| 0 <= i < chain.len() implies on_grid(m.grid, #[trigger] chain[i]) by {
            if i < m.body.len() {
                assert(m.contains(m.body[i]));
            }
        }
        lemma_advance_size(m.grid, chain, m.refill());
        assert forall|i: int| 0 <= i < behind.body.len() implies behind.contains(
            #[trigger] behind.body[i],
        ) by {
            assert(behind.body[i] == chain[i + 1]);
            if i + 1 < m.body.len() {
                assert(m.contains(m.body[i + 1]));
            }
        }
    }
    assert(behind.grid[front.1 as int].len() == behind.grid[0].len());
    lemma_with_cell(behind.grid, front, HEAD);
}

/// On a well-formed machine, the cells of the grid are the positions within
/// its width and height.
pub proof fn lemma_on_grid(m: Machine)
    requires
        rectangular(m.grid),
    ensures
        forall|pos: (usize, usize)| #[trigger] m.contains(pos) <==> on_grid(m.grid, pos),
{
    assert forall|pos: (usize, usize)| #[trigger] m.contains(pos) <==> on_grid(m.grid, pos) by {
        if pos.1 < m.grid.len() {
            assert(m.grid[pos.1 as int].len() == m.grid[0].len());
        }
    }
}

/// Once a program has ended, a step changes nothing.
pub proof fn theorem_ended_step_is_noop(m: Machine)
    requires
        m.state == State::EndOfProgram,
    ensures
        m.stepped() == m,
{
}

/// A step that moves the head puts it on the cell that was ahead and leaves
/// the head's mark there.
pub proof fn theorem_step_marks_head(m: Machine)
    requires
        m.wf(),
        m.state == State::Running,
        m.ahead() is Some,
    ensures
        m.stepped().state == State::Running,
        m.stepped().head == m.ahead()->0,
        m.stepped().cell(m.stepped().head) == HEAD,
{
    let front = m.ahead()->0;
    lemma_dispatched_size(m, m.cell(front));
    lemma_moved_size(m.dispatched(m.cell(front)), front);
}

/// What executing an instruction hands over: one value to the worm if the
/// instruction produces one, and its own byte to the queue of swallowed bytes
/// unless it is passive. An instruction that takes nothing off the worm, or
/// finds no body to take from, leaves the grid and the body as they are.
pub proof fn theorem_dispatch_table(m: Machine, byte: u8)
    ensures
        ({
            let instruction = Instruction::decoded(byte);
            let executed = m.dispatched(byte);
            let gained: nat = if instruction.produces_value() {
                1
            } else {
                0
            };
            &&& executed.pending_values.len() == m.pending_values.len() + gained
            &&& executed.pending_values.subrange(0, m.pending_values.len() as int)
                == m.pending_values
            &&& executed.head == m.head
            &&& executed.state == m.state
            &&& executed.input == m.input
            &&& instruction.operands() == 0 || m.body.len() == 0 ==> {
                &&& executed.grid == m.grid
                &&& executed.body == m.body
                &&& executed.pending_bytes == if instruction.swallowed() {
                    m.pending_bytes.insert(0, byte)
                } else {
                    m.pending_bytes
                }
            }
        }),
{
    let executed = m.dispatched(byte);
    assert(executed.pending_values.subrange(0, m.pending_values.len() as int)
        =~= m.pending_values);
}

/// A step leaves no value pending if none was pending before it.
pub proof fn theorem_step_leaves_nothing_pending(m: Machine)
    requires
        m.pending_values.len() == 0,
    ensures
        m.stepped().pending_values.len() == 0,
{
}

/// Sliding a worm that visits no cell twice moves every segment one cell
/// towards the head and changes nothing it carries: the body holds the same
/// values in the same order, and the cell that the tail left holds the byte
/// that was next to be laid down.
pub proof fn theorem_slide_carries_values(m: Machine)
    requires
        m.wf(),
        m.body.push(m.head).no_duplicates(),
    ensures
        m.slid().body == m.body.push(m.head).drop_first(),
        m.slid().body_values() == m.body_values(),
        m.slid().cell(m.body.push(m.head)[0]) == m.refill(),
        forall|pos: (usize, usize)|
            m.contains(pos) && !m.body.push(m.head).contains(pos) ==> #[trigger] m.slid().cell(pos)
                == m.cell(pos),
{
    let chain = m.body.push(m.head);
    lemma_on_grid(m);
    assert forall|i: int| 0 <= i < chain.len() implies on_grid(m.grid, #[trigger] chain[i]) by {
        if i < m.body.len() {
            assert(m.contains(m.body[i]));
        }
    }
    lemma_advance_simple_chain(m.grid, chain, m.refill());
    assert forall|i: int| 0 <= i < m.body.len() implies m.slid().body_values()[i]
        == m.body_values()[i] by {
        assert(m.slid().body[i] == chain[i + 1]);
        assert(chain[i] == m.body[i]);
    }
    assert(m.slid().body_values() =~= m.body_values());
}

/// Taking the neck's value off a worm whose body visits no cell twice leaves
/// the other values as they were, in the same order, each one cell nearer
/// the head; the cell that the tail left holds the byte that was next to be
/// laid down.
pub proof fn theorem_shrink_carries_values(m: Machine)
    requires
        m.wf(),
        m.body.len() > 0,
        m.body.no_duplicates(),
    ensures
        m.shrunk().body == m.body.drop_first(),
        m.shrunk().body_values() == m.body_values().drop_last(),
        m.shrunk().cell(m.body[0]) == m.refill(),
        forall|pos: (usize, usize)|
            m.contains(pos) && !m.body.contains(pos) ==> #[trigger] m.shrunk().cell(pos) == m.cell(
                pos,
            ),
{
    let chain = m.body;
    lemma_on_grid(m);
    assert forall|i: int| 0 <= i < chain.len() implies on_grid(m.grid, #[trigger] chain[i]) by {
        assert(m.contains(m.body[i]));
    }
    lemma_advance_simple_chain(m.grid, chain, m.refill());
    assert forall|i: int| 0 <= i < m.body.len() - 1 implies m.shrunk().body_values()[i]
        == m.body_values().drop_last()[i] by {
        assert(m.shrunk().body[i] == chain[i + 1]);
    }
    assert(m.shrunk().body_values() =~= m.body_values().drop_last());
}

/// How a step changes the length of the worm: it loses as many segments as
/// the instruction takes off it, as far as it has them, and gains one if the
/// instruction produces a value.
pub proof fn theorem_step_length(m: Machine)
    requires
        m.wf(),
        m.state == State::Running,
        m.ahead() is Some,
        m.pending_values.len() == 0,
    ensures
        ({
            let instruction = Instruction::decoded(m.cell(m.ahead()->0));
            let taken = if instruction.operands() <= m.body.len() {
                instruction.operands()
            } else {
                m.body.len()
            };
            let gained: nat = if instruction.produces_value() {
                1
            } else {
                0
            };
            m.stepped().body.len() == m.body.len() - taken + gained
        }),
{
    let byte = m.cell(m.ahead()->0);
    let rest = m.shrunk().swallowing(byte);
    assert(rest.body.len() == if m.body.len() > 0 {
        m.body.len() - 1
    } else {
        0
    });
    assert(rest.shrunk().body.len() == if rest.body.len() > 0 {
        rest.body.len() - 1
    } else {
        0
    });
}

/// Moving the head either grows the worm or slides it.
///
/// If a value is pending, the worm grows: the cell that was under the head
/// becomes the new neck and holds the newest pending value. Otherwise the
/// worm slides: it is as long as before, and the cell that was under the head
/// holds what the neck held, provided the worm has a neck and does not lie
/// across the cell under its own head. A worm without a body leaves behind
/// the byte that is next to be laid down.
pub proof fn theorem_move_grows_or_slides(m: Machine, front: (usize, usize))
    requires
        m.wf(),
        m.contains(front),
        front != m.head,
    ensures
        m.pending_values.len() > 0 ==> {
            &&& m.moved(front).body == m.body.push(m.head)
            &&& m.moved(front).cell(m.head) == m.pending_values.last()
            &&& m.moved(front).pending_values == m.pending_values.drop_last()
            &&& m.moved(front).pending_bytes == m.pending_bytes
        },
        m.pending_values.len() == 0 ==> {
            &&& m.moved(front).body == m.body.push(m.head).drop_first()
            &&& m.moved(front).body.len() == m.body.len()
            &&& m.body.len() > 0 && !m.body.contains(m.head) ==> m.moved(front).cell(m.head)
                == m.neck_value()
            &&& m.body.len() == 0 ==> m.moved(front).cell(m.head) == m.refill()
        },
{
    lemma_on_grid(m);
    if m.pending_values.len() > 0 {
        let grown = m.grown();
        lemma_with_cell(m.grid, m.head, m.pending_values.last());
        lemma_with_cell(grown.grid, front, HEAD);
    } else {
        let chain = m.body.push(m.head);
        let slid = m.slid();
        assert forall|i: int| 0 <= i < chain.len() implies on_grid(m.grid, #[trigger] chain[i]) by {
            if i < m.body.len() {
                assert(m.contains(m.body[i]));
            }
        }
        lemma_advance_size(m.grid, chain, m.refill());
        assert(slid.grid[m.head.1 as int].len() == slid.grid[0].len());
        assert(slid.grid[front.1 as int].len() == slid.grid[0].len());
        lemma_with_cell(slid.grid, front, HEAD);
        if m.body.len() > 0 && !m.body.contains(m.head) {
            assert forall|i: int| 0 <= i < chain.len() - 1 implies #[trigger] chain[i]
                != chain.last() by {
                assert(m.body[i] == chain[i]);
                assert(m.body.contains(m.body[i]));
            }
            lemma_advance_front(m.grid, chain, m.refill());
            assert(chain[chain.len() - 2] == m.body.last());
        }
        if m.body.len() == 0 {
            lemma_with_cell(m.grid, m.head, m.refill());
        }
    }
}

/// A step on an instruction that takes nothing off the worm either grows the
/// worm by one segment or slides it.
///
/// If the instruction produces a value, the worm grows: the cell that was
/// under the head becomes the new neck and holds the value produced.
/// Otherwise the worm slides: it is as long as before, and the cell that was
/// under the head holds what the neck held, provided the worm has a neck and
/// does not lie across the cell under its own head. A worm without a body
/// leaves behind the byte that is next to be laid down.
pub proof fn theorem_step_grows_or_slides(m: Machine)
    requires
        m.wf(),
        m.state == State::Running,
        m.ahead() is Some,
        m.pending_values.len() == 0,
        Instruction::decoded(m.cell(m.ahead()->0)).operands() == 0 || m.body.len() == 0,
    ensures
        ({
            let instruction = Instruction::decoded(m.cell(m.ahead()->0));
            let executed = m.dispatched(m.cell(m.ahead()->0));
            let after = m.stepped();
            &&& after.state == State::Running
            &&& instruction.produces_value() ==> {
                &&& after.body == m.body.push(m.head)
                &&& after.body.len() == m.body.len() + 1
                &&& after.cell(m.head) == executed.pending_values.last()
            }
            &&& !instruction.produces_value() ==> {
                &&& after.body == m.body.push(m.head).drop_first()
                &&& after.body.len() == m.body.len()
                &&& m.body.len() > 0 && !m.body.contains(m.head) ==> after.cell(m.head)
                    == m.neck_value()
                &&& m.body.len() == 0 ==> after.cell(m.head) == executed.refill()
            }
        }),
{
    let front = m.ahead()->0;
    let executed = m.dispatched(m.cell(front));
    theorem_dispatch_table(m, m.cell(front));
    lemma_dispatched_size(m, m.cell(front));
    theorem_move_grows_or_slides(executed, front);
}

/// Executing `+` on a worm whose neck holds `a` and whose next segment holds
/// `b` leaves `a + b` modulo 256 in the cell that was under the head, as the
/// new neck; `-` leaves `a - b` modulo 256. The worm must not have another
/// segment in the cell of its neck.
pub proof fn theorem_arithmetic(m: Machine)
    requires
        m.wf(),
        m.state == State::Running,
        m.ahead() is Some,
        m.cell(m.ahead()->0) == PLUS || m.cell(m.ahead()->0) == MINUS,
        m.body.len() >= 2,
        forall|i: int| 0 <= i < m.body.len() - 1 ==> #[trigger] m.body[i] != m.body.last(),
    ensures
        ({
            let a = m.cell(m.body[m.body.len() - 1]);
            let b = m.cell(m.body[m.body.len() - 2]);
            let after = m.stepped();
            &&& after.body.last() == m.head
            &&& m.cell(m.ahead()->0) == PLUS ==> after.cell(m.head) == wrapping_sum(a, b)
            &&& m.cell(m.ahead()->0) == MINUS ==> after.cell(m.head) == wrapping_difference(a, b)
        }),
{
    let front = m.ahead()->0;
    let byte = m.cell(front);
    lemma_on_grid(m);
    assert forall|i: int| 0 <= i < m.body.len() implies on_grid(m.grid, #[trigger] m.body[i]) by {
        assert(m.contains(m.body[i]));
    }
    lemma_advance_front(m.grid, m.body, m.refill());
    let rest = m.shrunk().swallowing(byte);
    assert(rest.body.last() == m.body.last());
    assert(rest.neck_value() == m.cell(m.body[m.body.len() - 2]));
    lemma_shrunk_size(m);
    lemma_shrunk_size(rest);
    let executed = m.dispatched(byte);
    lemma_on_grid(rest.shrunk());
    let grown = executed.grown();
    lemma_with_cell(executed.grid, m.head, executed.pending_values.last());
    lemma_with_cell(grown.grid, front, HEAD);
}

/// `_` makes a segment that holds a space: the worm grows, its new neck is
/// the cell that was under the head, and that cell holds a space. The byte
/// `_` is swallowed.
pub proof fn theorem_underscore_grows(m: Machine)
    requires
        m.wf(),
        m.state == State::Running,
        m.ahead() is Some,
        m.cell(m.ahead()->0) == UNDERSCORE,
    ensures
        m.stepped().body == m.body.push(m.head),
        m.stepped().cell(m.head) == SPACE,
        m.stepped().pending_bytes == m.pending_bytes.insert(0, UNDERSCORE),
        m.stepped().pending_values == m.pending_values,
{
    let front = m.ahead()->0;
    let executed = m.dispatched(UNDERSCORE);
    lemma_dispatched_size(m, UNDERSCORE);
    theorem_move_grows_or_slides(executed, front);
    assert(m.stepped().pending_values =~= m.pending_values);
}

/// Whether a byte does nothing when executed: a space or a null byte.
pub open spec fn passive(byte: u8) -> bool {
    byte == SPACE || byte == 0
}

/// A space or a null byte does nothing: the worm slides, nothing is swallowed
/// or produced, and the heading, the input and the output stay as they are.
pub proof fn theorem_passive_slides(m: Machine)
    requires
        m.wf(),
        m.state == State::Running,
        m.ahead() is Some,
        m.pending_values.len() == 0,
        passive(m.cell(m.ahead()->0)),
    ensures
        m.stepped() == m.moved(m.ahead()->0),
        m.stepped().body == m.body.push(m.head).drop_first(),
        m.stepped().body.len() == m.body.len(),
        m.stepped().pending_values.len() == 0,
        m.stepped().pending_bytes == if m.pending_bytes.len() > 0 {
            m.pending_bytes.drop_last()
        } else {
            m.pending_bytes
        },
        m.stepped().direction == m.direction,
        m.stepped().input == m.input,
        m.stepped().cursor == m.cursor,
        m.stepped().output == m.output,
{
}

/// How many steps a machine can take straight ahead before its head faces
/// the edge of the grid.
pub open spec fn steps_to_edge(m: Machine) -> int {
    match m.direction {
        Direction::Up => m.head.1 as int,
        Direction::Down => m.height() - 1 - m.head.1,
        Direction::Left => m.head.0 as int,
        Direction::Right => m.width() - 1 - m.head.0,
    }
}

/// Whether the machine is a bare head on an idle grid: the worm has no body,
/// nothing is pending, and every cell but the one under the head is passive.
pub open spec fn idle(m: Machine) -> bool {
    &&& m.wf()
    &&& m.body.len() == 0
    &&& m.pending_values.len() == 0
    &&& m.pending_bytes.len() == 0
    &&& forall|pos: (usize, usize)|
        m.contains(pos) && pos != m.head ==> passive(#[trigger] m.cell(pos))
}

/// A step of a bare head on an idle grid leaves a bare head on an idle grid,
/// one cell nearer the edge, with the same heading and output.
pub proof fn lemma_idle_step(m: Machine)
    requires
        idle(m),
    ensures
        idle(m.stepped()),
        m.stepped().output == m.output,
        m.stepped().direction == m.direction,
        m.state == State::Running && m.ahead() is Some ==> steps_to_edge(m.stepped())
            == steps_to_edge(m) - 1 && m.stepped().state == State::Running,
        m.state == State::Running && m.ahead() is None ==> steps_to_edge(m) == 0
            && m.stepped().state == State::EndOfProgram,
        m.state == State::Running ==> steps_to_edge(m) >= 0,
{
    if m.state == State::Running && m.ahead() is Some {
        let front = m.ahead()->0;
        let after = m.stepped();
        lemma_on_grid(m);
        assert(passive(m.cell(front)));
        theorem_passive_slides(m);
        let swept = with_cell(m.grid, m.head, SPACE);
        assert(m.body.push(m.head).len() == 1);
        assert(m.slid().grid == swept);
        lemma_with_cell(m.grid, m.head, SPACE);
        assert(swept[front.1 as int].len() == swept[0].len());
        lemma_with_cell(swept, front, HEAD);
        lemma_moved_size(m, front);
        assert(after.body =~= Seq::empty());
        assert forall|pos: (usize, usize)| after.contains(pos) && pos != after.head implies passive(
            #[trigger] after.cell(pos),
        ) by {
            assert(m.contains(pos));
            if pos != m.head {
                assert(passive(m.cell(pos)));
                assert(cell_at(swept, pos) == cell_at(m.grid, pos));
            }
        }
    } else {
        let after = m.stepped();
        assert forall|pos: (usize, usize)| after.contains(pos) && pos != after.head implies passive(
            #[trigger] after.cell(pos),
        ) by {
            assert(passive(m.cell(pos)));
        }
    }
}

/// A program that is a bare head on an idle grid runs straight to the edge
/// and ends there: whatever the number of steps, the worm has no body and
/// the output is what it was; and after more steps than there are cells
/// between the head and the edge, the program has ended.
pub proof fn theorem_idle_run(m: Machine, n: nat)
    requires
        idle(m),
        m.state == State::Running,
    ensures
        m.stepped_n(n).body.len() == 0,
        m.stepped_n(n).output == m.output,
        n > steps_to_edge(m) ==> m.stepped_n(n).state == State::EndOfProgram,
        n <= steps_to_edge(m) ==> m.stepped_n(n).state == State::Running,
    decreases n,
{
    if n > 0 {
        lemma_idle_step(m);
        if m.stepped().state == State::Running {
            theorem_idle_run(m.stepped(), (n - 1) as nat);
        } else {
            lemma_ended_stays(m.stepped(), (n - 1) as nat);
        }
    } else {
        lemma_idle_step(m);
    }
}

/// A program whose source holds nothing but spaces and null bytes, except
/// for the byte that the worm starts on, runs straight to the right edge of
/// the grid and ends there, with no output and no body.
pub proof fn theorem_idle_program(lines: Seq<Seq<u8>>, input: Seq<u8>, n: nat)
    requires
        0 < lines.len() <= usize::MAX,
        0 < widest(lines) <= usize::MAX,
        forall|row: int, column: int|
            0 <= row < lines.len() && 0 <= column < lines[row].len() && (column, row) != (
                start_of(lines).0 as int,
                start_of(lines).1 as int,
            ) ==> passive(#[trigger] lines[row][column]),
    ensures
        Machine::loaded(lines, input).stepped_n(n).output.len() == 0,
        Machine::loaded(lines, input).stepped_n(n).body.len() == 0,
        Machine::loaded(lines, input).stepped_n(n).state == if n + start_of(lines).0 < widest(
            lines,
        ) {
            State::Running
        } else {
            State::EndOfProgram
        },
{
    let m = Machine::loaded(lines, input);
    lemma_start_on_grid(lines);
    theorem_rows_are_padded_lines(lines);
    assert(rectangular(m.grid)) by {
        assert forall|row: int| 0 <= row < m.grid.len() implies (#[trigger] m.grid[row]).len()
            == m.grid[0].len() by {
            assert(grid_of(lines)[row].len() == widest(lines));
            assert(grid_of(lines)[0].len() == widest(lines));
        }
    }
    assert(grid_of(lines)[0].len() == widest(lines));
    assert forall|pos: (usize, usize)| m.contains(pos) && pos != m.head implies passive(
        #[trigger] m.cell(pos),
    ) by {
        let row = pos.1 as int;
        let column = pos.0 as int;
        assert(grid_of(lines)[row].len() == widest(lines));
        if column < lines[row].len() {
            assert(passive(lines[row][column]));
        }
    }
    theorem_idle_run(m, n);
}

/// The queue of swallowed bytes after each of `bytes` was swallowed, the
/// first of them first.
pub open spec fn swallowed_all(queue: Seq<u8>, bytes: Seq<u8>) -> Seq<u8>
    decreases bytes.len(),
{
    if bytes.len() == 0 {
        queue
    } else {
        swallowed_all(queue.insert(0, bytes[0]), bytes.drop_first())
    }
}

/// The bytes that the next `n` vacated cells are refilled with, the first
/// refill first, starting from the given queue of swallowed bytes.
pub open spec fn refills(queue: Seq<u8>, n: nat) -> Seq<u8>
    decreases n,
{
    if n == 0 {
        Seq::empty()
    } else if queue.len() == 0 {
        seq![SPACE] + refills(queue, (n - 1) as nat)
    } else {
        seq![queue.last()] + refills(queue.drop_last(), (n - 1) as nat)
    }
}

/// How the machine uses the queue of swallowed bytes: executing an
/// instruction swallows its byte, and every retraction of the worm takes the
/// next refill.
pub proof fn theorem_queue_operations(m: Machine, byte: u8, chain: Seq<(usize, usize)>, n: nat)
    ensures
        m.swallowing(byte).pending_bytes == swallowed_all(m.pending_bytes, seq![byte]),
        refills(m.pending_bytes, n + 1) == seq![m.refill()] + refills(
            m.retracted(chain).pending_bytes,
            n,
        ),
{
    let one = seq![byte];
    assert(swallowed_all(m.pending_bytes.insert(0, one[0]), one.drop_first())
        == m.pending_bytes.insert(0, byte));
}

/// Emptying a queue yields its bytes from the far end to index 0.
proof fn lemma_refills_reverse(queue: Seq<u8>)
    ensures
        refills(queue, queue.len()) == queue.reverse(),
    decreases queue.len(),
{
    if queue.len() > 0 {
        lemma_refills_reverse(queue.drop_last());
        assert(refills(queue, queue.len()) =~= queue.reverse());
    } else {
        assert(refills(queue, queue.len()) =~= queue.reverse());
    }
}

/// Swallowing bytes puts them in front of the queue, the last one foremost.
proof fn lemma_swallowed_all(queue: Seq<u8>, bytes: Seq<u8>)
    ensures
        swallowed_all(queue, bytes) == bytes.reverse() + queue,
    decreases bytes.len(),
{
    if bytes.len() > 0 {
        lemma_swallowed_all(queue.insert(0, bytes[0]), bytes.drop_first());
        assert(bytes.drop_first().reverse() + queue.insert(0, bytes[0]) =~= bytes.reverse()
            + queue);
    } else {
        assert(bytes.reverse() + queue =~= queue);
    }
}

/// Swallowed bytes are laid down again in the order in which they were
/// swallowed: emptying the queue yields what was waiting in it, oldest first,
/// and after that the bytes swallowed since, the first of them first.
pub proof fn theorem_first_swallowed_first_laid(queue: Seq<u8>, bytes: Seq<u8>)
    ensures
        refills(swallowed_all(queue, bytes), queue.len() + bytes.len()) == queue.reverse() + bytes,
        queue.len() == 0 ==> refills(swallowed_all(queue, bytes), bytes.len()) == bytes,
{
    let all = swallowed_all(queue, bytes);
    lemma_swallowed_all(queue, bytes);
    lemma_refills_reverse(all);
    assert(all.reverse() =~= queue.reverse() + bytes);
    assert(queue.len() == 0 ==> queue.reverse() + bytes =~= bytes);
}

} // verus!
