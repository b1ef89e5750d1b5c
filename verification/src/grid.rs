//! Building the grid from source text.
//!
//! Each line of the source becomes a row. Rows shorter than the longest line
//! are padded on the right with null bytes, so that the grid is a rectangle.
//! The worm starts on the first `@` of the last line that has one, or in the
//! top left corner if there is none.

use vstd::prelude::*;
use vstd::string::*;
use crate::instruction::HEAD;

verus! {

/// The byte that ends a line.
pub const NEWLINE: u8 = 10;

/// The byte that may precede a [`NEWLINE`] and belongs to the line ending if
/// it does.
pub const CARRIAGE_RETURN: u8 = 13;

/// The byte that pads short rows.
pub const PADDING: u8 = 0;

/// The rows of a grid as sequences of bytes.
pub open spec fn rows_view(rows: Seq<Vec<u8>>) -> Seq<Seq<u8>> {
    Seq::new(rows.len(), |row: int| rows[row]@)
}

/// The number of bytes from index `from` up to the next [`NEWLINE`], or up to
/// the end of `source` if none follows.
pub open spec fn line_length(source: Seq<u8>, from: int) -> nat
    decreases source.len() - from,
{
    if from < 0 || from >= source.len() || source[from] == NEWLINE {
        0
    } else {
        1 + line_length(source, from + 1)
    }
}

/// `line` without the [`CARRIAGE_RETURN`] at its end, if it has one.
pub open spec fn without_carriage_return(line: Seq<u8>) -> Seq<u8> {
    if line.len() > 0 && line.last() == CARRIAGE_RETURN {
        line.drop_last()
    } else {
        line
    }
}

/// The lines of the part of `source` that starts at index `from`.
///
/// A line ends with a [`NEWLINE`], or with a [`CARRIAGE_RETURN`] directly
/// followed by one; neither belongs to the line. The last line needs no line
/// ending, and is kept as it stands if it has none. Nothing follows a final
/// line ending: a source that ends with one has no empty last line.
pub open spec fn lines_from(source: Seq<u8>, from: int) -> Seq<Seq<u8>>
    decreases source.len() - from,
{
    if from < 0 || from >= source.len() {
        Seq::empty()
    } else {
        let end = from + line_length(source, from);
        if end >= source.len() {
            seq![source.subrange(from, end)]
        } else {
            seq![without_carriage_return(source.subrange(from, end))] + lines_from(source, end + 1)
        }
    }
}

/// The lines of `source`.
pub open spec fn source_lines(source: Seq<u8>) -> Seq<Seq<u8>> {
    lines_from(source, 0)
}

/// The length of the longest of `lines`, zero if there is none.
pub open spec fn widest(lines: Seq<Seq<u8>>) -> nat
    decreases lines.len(),
{
    if lines.len() == 0 {
        0
    } else {
        let before = widest(lines.drop_last());
        if lines.last().len() > before {
            lines.last().len()
        } else {
            before
        }
    }
}

/// `line` followed by as many [`PADDING`] bytes as it takes to make it
/// `width` long.
pub open spec fn padded(line: Seq<u8>, width: nat) -> Seq<u8> {
    Seq::new(width, |column: int| if column < line.len() { line[column] } else { PADDING })
}

/// The grid made of `lines`: one row for each, all padded to the length of
/// the longest.
pub open spec fn grid_of(lines: Seq<Seq<u8>>) -> Seq<Seq<u8>> {
    Seq::new(lines.len(), |row: int| padded(lines[row], widest(lines)))
}

/// The index of the first [`HEAD`] byte of `line` at or after index `from`,
/// or the length of `line` if there is none.
pub open spec fn mark_from(line: Seq<u8>, from: int) -> int
    decreases line.len() - from,
{
    if from < 0 || from >= line.len() {
        line.len() as int
    } else if line[from] == HEAD {
        from
    } else {
        mark_from(line, from + 1)
    }
}

/// Whether `line` holds a [`HEAD`] byte.
pub open spec fn has_mark(line: Seq<u8>) -> bool {
    mark_from(line, 0) < line.len()
}

/// Where the worm starts (column, row): on the first [`HEAD`] byte of the
/// last of `lines` that has one, or at (0, 0) if none has.
pub open spec fn start_of(lines: Seq<Seq<u8>>) -> (usize, usize)
    decreases lines.len(),
{
    if lines.len() == 0 {
        (0, 0)
    } else if has_mark(lines.last()) {
        (mark_from(lines.last(), 0) as usize, (lines.len() - 1) as usize)
    } else {
        start_of(lines.drop_last())
    }
}

/// The length of the longest line is the greatest of the lengths: no line is
/// longer, and if there are lines one of them is that long.
pub proof fn lemma_widest_is_maximum(lines: Seq<Seq<u8>>)
    ensures
        forall|row: int| 0 <= row < lines.len() ==> (#[trigger] lines[row]).len() <= widest(lines),
        lines.len() > 0 ==> exists|row: int|
            0 <= row < lines.len() && (#[trigger] lines[row]).len() == widest(lines),
    decreases lines.len(),
{
    if lines.len() > 0 {
        let front = lines.drop_last();
        lemma_widest_is_maximum(front);
        assert forall|row: int| 0 <= row < lines.len() implies (#[trigger] lines[row]).len()
            <= widest(lines) by {
            if row < front.len() {
                assert(front[row] == lines[row]);
            }
        }
        if lines.last().len() > widest(front) || front.len() == 0 {
            assert(lines[lines.len() - 1].len() == widest(lines));
        } else {
            let row = choose|row: int|
                0 <= row < front.len() && (#[trigger] front[row]).len() == widest(front);
            assert(lines[row] == front[row]);
        }
    }
}

/// [`mark_from`] finds the first [`HEAD`] byte: its result lies between
/// `from` and the end of the line, no byte from `from` up to it is one, and
/// the byte at it is one unless it is the end of the line.
pub proof fn lemma_mark_from(line: Seq<u8>, from: int)
    requires
        0 <= from <= line.len(),
    ensures
        from <= mark_from(line, from) <= line.len(),
        forall|column: int| from <= column < mark_from(line, from) ==> line[column] != HEAD,
        mark_from(line, from) < line.len() ==> line[mark_from(line, from)] == HEAD,
    decreases line.len() - from,
{
    if from < line.len() && line[from] != HEAD {
        lemma_mark_from(line, from + 1);
    }
}

/// Where no line holds a mark, the worm starts at (0, 0).
pub proof fn lemma_start_without_mark(lines: Seq<Seq<u8>>)
    requires
        forall|row: int| 0 <= row < lines.len() ==> !has_mark(#[trigger] lines[row]),
    ensures
        start_of(lines) == (0usize, 0usize),
    decreases lines.len(),
{
    if lines.len() > 0 {
        let front = lines.drop_last();
        assert(!has_mark(lines[lines.len() - 1]));
        assert forall|row: int| 0 <= row < front.len() implies !has_mark(#[trigger] front[row]) by {
            assert(front[row] == lines[row]);
        }
        lemma_start_without_mark(front);
    }
}

/// The worm starts on the first mark of the last line that holds one.
pub proof fn theorem_start_at_last_mark(lines: Seq<Seq<u8>>, row: int)
    requires
        0 <= row < lines.len(),
        has_mark(lines[row]),
        forall|later: int| row < later < lines.len() ==> !has_mark(#[trigger] lines[later]),
    ensures
        start_of(lines) == (mark_from(lines[row], 0) as usize, row as usize),
    decreases lines.len(),
{
    if row < lines.len() - 1 {
        let front = lines.drop_last();
        assert(!has_mark(lines[lines.len() - 1]));
        assert(front[row] == lines[row]);
        assert forall|later: int| row < later < front.len() implies !has_mark(
            #[trigger] front[later],
        ) by {
            assert(front[later] == lines[later]);
        }
        theorem_start_at_last_mark(front, row);
    }
}

/// Where some line holds a mark, the cell of the grid at the start holds the
/// head's mark.
pub proof fn lemma_start_marked(lines: Seq<Seq<u8>>)
    requires
        exists|row: int| 0 <= row < lines.len() && has_mark(#[trigger] lines[row]),
        lines.len() <= usize::MAX,
        widest(lines) <= usize::MAX,
    ensures
        start_of(lines).1 < lines.len(),
        start_of(lines).0 < lines[start_of(lines).1 as int].len(),
        grid_of(lines)[start_of(lines).1 as int][start_of(lines).0 as int] == HEAD,
    decreases lines.len(),
{
    lemma_widest_is_maximum(lines);
    let front = lines.drop_last();
    lemma_mark_from(lines.last(), 0);
    if has_mark(lines.last()) {
        assert(lines[lines.len() - 1].len() <= widest(lines));
    } else {
        let row = choose|row: int| 0 <= row < lines.len() && has_mark(#[trigger] lines[row]);
        assert(front[row] == lines[row]);
        lemma_widest_is_maximum(front);
        lemma_start_marked(front);
        let start = start_of(front);
        assert(front[start.1 as int] == lines[start.1 as int]);
        assert(lines[start.1 as int].len() <= widest(lines));
    }
}

/// The start lies on the grid, provided the grid has a cell at all.
pub proof fn lemma_start_on_grid(lines: Seq<Seq<u8>>)
    requires
        lines.len() > 0,
        widest(lines) > 0,
    ensures
        start_of(lines).0 < widest(lines),
        start_of(lines).1 < lines.len(),
    decreases lines.len(),
{
    lemma_widest_is_maximum(lines);
    lemma_mark_from(lines.last(), 0);
    let front = lines.drop_last();
    if has_mark(lines.last()) {
        assert(lines[lines.len() - 1].len() <= widest(lines));
    } else if front.len() > 0 && widest(front) > 0 {
        lemma_start_on_grid(front);
    } else {
        lemma_widest_is_maximum(front);
        assert forall|row: int| 0 <= row < front.len() implies !has_mark(#[trigger] front[row]) by {
            lemma_mark_from(front[row], 0);
        }
        lemma_start_without_mark(front);
    }
}

/// A stretch without a [`NEWLINE`] belongs to one line.
proof fn lemma_line_length_split(source: Seq<u8>, from: int, end: int)
    requires
        0 <= from <= end <= source.len(),
        forall|k: int| from <= k < end ==> source[k] != NEWLINE,
    ensures
        line_length(source, from) == (end - from) + line_length(source, end),
    decreases end - from,
{
    if from < end {
        lemma_line_length_split(source, from + 1, end);
    }
}

/// Splits `source` into its lines.
pub fn split_lines(source: &[u8]) -> (lines: Vec<Vec<u8>>)
    ensures
        rows_view(lines@) == source_lines(source@),
{
    let mut lines: Vec<Vec<u8>> = Vec::new();
    let mut from: usize = 0;
    assert(rows_view(lines@) + lines_from(source@, 0) =~= source_lines(source@));
    while from < source.len()
        invariant
            from <= source.len(),
            source_lines(source@) == rows_view(lines@) + lines_from(source@, from as int),
        decreases source.len() - from,
    {
        let mut line: Vec<u8> = Vec::new();
        let mut end: usize = from;
        while end < source.len() && source[end] != NEWLINE
            invariant
                from <= end <= source.len(),
                line@ == source@.subrange(from as int, end as int),
                forall|k: int| from <= k < end ==> source@[k] != NEWLINE,
            decreases source.len() - end,
        {
            line.push(source[end]);
            end = end + 1;
            assert(line@ =~= source@.subrange(from as int, end as int));
        }
        proof {
            lemma_line_length_split(source@, from as int, end as int);
        }
        let ghost before = rows_view(lines@);
        let ghost rest = lines_from(source@, from as int);
        if end < source.len() {
            let len: usize = line.len();
            if len > 0 && line[len - 1] == CARRIAGE_RETURN {
                line.pop();
            }
            assert(line@ =~= without_carriage_return(source@.subrange(from as int, end as int)));
            from = end + 1;
        } else {
            from = end;
        }
        lines.push(line);
        assert(rows_view(lines@) =~= before.push(line@));
        assert(before.push(line@) + lines_from(source@, from as int) =~= before + rest);
    }
    assert(rows_view(lines@) + lines_from(source@, from as int) =~= rows_view(lines@));
    lines
}

/// The length of the longest of `lines`, zero if there is none.
pub fn widest_line(lines: &Vec<Vec<u8>>) -> (width: usize)
    ensures
        width == widest(rows_view(lines@)),
{
    let mut width: usize = 0;
    let mut row: usize = 0;
    assert(rows_view(lines@).subrange(0, 0) =~= Seq::empty());
    while row < lines.len()
        invariant
            row <= lines.len(),
            width == widest(rows_view(lines@).subrange(0, row as int)),
        decreases lines.len() - row,
    {
        let len: usize = lines[row].len();
        assert(rows_view(lines@).subrange(0, row + 1).drop_last() =~= rows_view(lines@).subrange(
            0,
            row as int,
        ));
        if len > width {
            width = len;
        }
        row = row + 1;
    }
    assert(rows_view(lines@).subrange(0, row as int) =~= rows_view(lines@));
    width
}

/// The index of the first [`HEAD`] byte of `line`, if it has one.
pub fn find_mark(line: &Vec<u8>) -> (found: Option<usize>)
    ensures
        match found {
            Some(column) => column < line@.len() && column == mark_from(line@, 0),
            None => mark_from(line@, 0) == line@.len(),
        },
{
    let mut column: usize = 0;
    while column < line.len()
        invariant
            column <= line.len(),
            mark_from(line@, 0) == mark_from(line@, column as int),
        decreases line.len() - column,
    {
        if line[column] == HEAD {
            return Some(column);
        }
        column = column + 1;
    }
    None
}

/// Where the worm starts among `lines` (column, row).
pub fn find_start(lines: &Vec<Vec<u8>>) -> (start: (usize, usize))
    ensures
        start == start_of(rows_view(lines@)),
{
    let mut start: (usize, usize) = (0, 0);
    let mut row: usize = 0;
    assert(rows_view(lines@).subrange(0, 0) =~= Seq::empty());
    while row < lines.len()
        invariant
            row <= lines.len(),
            start == start_of(rows_view(lines@).subrange(0, row as int)),
        decreases lines.len() - row,
    {
        assert(rows_view(lines@).subrange(0, row + 1).drop_last() =~= rows_view(lines@).subrange(
            0,
            row as int,
        ));
        match find_mark(&lines[row]) {
            Some(column) => {
                start = (column, row);
            },
            None => {},
        }
        row = row + 1;
    }
    assert(rows_view(lines@).subrange(0, row as int) =~= rows_view(lines@));
    start
}

/// Makes every one of `lines` exactly `width` long: a shorter line is padded
/// with [`PADDING`] bytes, a longer one is cut.
pub fn pad_lines(lines: &mut Vec<Vec<u8>>, width: usize)
    ensures
        final(lines)@.len() == old(lines)@.len(),
        forall|row: int|
            0 <= row < old(lines)@.len() ==> (#[trigger] final(lines)@[row])@ == padded(
                old(lines)@[row]@,
                width as nat,
            ),
{
    let ghost before = rows_view(lines@);
    let mut row: usize = 0;
    while row < lines.len()
        invariant
            row <= lines.len(),
            lines@.len() == before.len(),
            before == rows_view(old(lines)@),
            forall|r: int|
                0 <= r < row ==> (#[trigger] lines@[r])@ == padded(before[r], width as nat),
            forall|r: int| row <= r < lines@.len() ==> (#[trigger] lines@[r])@ == before[r],
        decreases lines.len() - row,
    {
        let line: &mut Vec<u8> = &mut lines[row];
        if line.len() > width {
            line.truncate(width);
        }
        while line.len() < width
            invariant
                row < before.len(),
                line@.len() <= width,
                line@.len() >= before[row as int].len() || line@.len() == width,
                forall|column: int|
                    0 <= column < line@.len() ==> line@[column] == padded(
                        before[row as int],
                        width as nat,
                    )[column],
            decreases width - line.len(),
        {
            line.push(PADDING);
        }
        assert(line@ =~= padded(before[row as int], width as nat));
        row = row + 1;
    }
    assert forall|r: int| 0 <= r < old(lines)@.len() implies (#[trigger] lines@[r])@ == padded(
        old(lines)@[r]@,
        width as nat,
    ) by {
        assert(before[r] == old(lines)@[r]@);
    }
}

/// Every row of the grid is as long as the longest line. It starts with the
/// bytes of its line, and [`PADDING`] bytes fill the rest.
pub proof fn theorem_rows_are_padded_lines(lines: Seq<Seq<u8>>)
    ensures
        grid_of(lines).len() == lines.len(),
        forall|row: int|
            0 <= row < lines.len() ==> {
                &&& (#[trigger] grid_of(lines)[row]).len() == widest(lines)
                &&& lines[row].len() <= widest(lines)
                &&& grid_of(lines)[row].subrange(0, lines[row].len() as int) == lines[row]
                &&& forall|column: int|
                    lines[row].len() <= column < widest(lines) ==> grid_of(lines)[row][column]
                        == PADDING
            },
{
    lemma_widest_is_maximum(lines);
    assert forall|row: int| 0 <= row < lines.len() implies {
        &&& (#[trigger] grid_of(lines)[row]).len() == widest(lines)
        &&& lines[row].len() <= widest(lines)
        &&& grid_of(lines)[row].subrange(0, lines[row].len() as int) == lines[row]
        &&& forall|column: int|
            lines[row].len() <= column < widest(lines) ==> grid_of(lines)[row][column] == PADDING
    } by {
        assert(lines[row].len() <= widest(lines));
        assert(grid_of(lines)[row].subrange(0, lines[row].len() as int) =~= lines[row]);
    }
}

/// Builds the grid from source text and finds where the worm starts.
///
/// Returns the rows of the grid, each as long as the longest line of
/// `source`, and the starting cell (column, row).
pub fn parse(source: &str) -> (parsed: (Vec<Vec<u8>>, (usize, usize)))
    ensures
        rows_view(parsed.0@) == grid_of(source_lines(source.spec_bytes())),
        parsed.1 == start_of(source_lines(source.spec_bytes())),
        forall|row: int|
            0 <= row < parsed.0@.len() ==> (#[trigger] parsed.0@[row])@.len() == widest(
                source_lines(source.spec_bytes()),
            ),
{
    let mut program: Vec<Vec<u8>> = split_lines(source.as_bytes());
    let ghost lines = rows_view(program@);
    let width: usize = widest_line(&program);
    let start: (usize, usize) = find_start(&program);
    pad_lines(&mut program, width);
    assert(rows_view(program@) =~= grid_of(lines));
    (program, start)
}

} // verus!
