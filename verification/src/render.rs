//! Drawing the grid as text for a terminal.
//!
//! Every cell becomes one character. The worm is coloured with ANSI escape
//! sequences: the head has a yellow background, a segment that holds a value
//! below ten shows that value on green, any other segment is a green star on
//! red. Off the worm, visible ASCII is shown as it is, spaces and null bytes
//! are blank, and every other byte is a green star.

use vstd::prelude::*;
use vstd::string::*;
use owo_colors::OwoColorize;
use crate::direction::State;
use crate::grid::{has_mark, widest, lemma_start_marked};
use crate::instruction::{HEAD, SPACE};
use crate::interpreter::SandWormInterpreter;
use crate::machine::Machine;
use crate::theorems::theorem_step_marks_head;

verus! {

/// How a cell is drawn.
#[derive(Debug, Clone, Copy, PartialEq, Eq, Structural)]
pub enum Glyph {
    /// A segment of the worm that holds the given value, which is below ten.
    Digit(u8),
    /// A segment of the worm that holds ten or more.
    Cargo,
    /// The head of the worm.
    Head,
    /// A space or a null byte off the worm.
    Empty,
    /// A visible ASCII character off the worm.
    Plain(u8),
    /// Any other byte off the worm.
    Other,
}

/// The escape sequence that selects the graphic rendition `code`.
pub open spec fn escape(code: Seq<char>) -> Seq<char> {
    seq!['\x1b', '['] + code + seq!['m']
}

/// The lower-case hexadecimal digit for a value below sixteen.
pub open spec fn hex_digit(value: u8) -> char {
    if value < 10 {
        (48 + value) as char
    } else {
        (87 + value) as char
    }
}

/// `value` in lower-case hexadecimal, without leading zeros.
pub open spec fn lower_hex(value: u8) -> Seq<char> {
    if value < 16 {
        seq![hex_digit(value)]
    } else {
        seq![hex_digit(value / 16), hex_digit(value % 16)]
    }
}

/// `text` in green.
pub open spec fn green_text(text: Seq<char>) -> Seq<char> {
    escape(seq!['3', '2']) + text + escape(seq!['3', '9'])
}

/// `text` in red.
pub open spec fn red_text(text: Seq<char>) -> Seq<char> {
    escape(seq!['3', '1']) + text + escape(seq!['3', '9'])
}

/// `text` on a yellow background.
pub open spec fn on_yellow_text(text: Seq<char>) -> Seq<char> {
    escape(seq!['4', '3']) + text + escape(seq!['4', '9'])
}

/// `text` in green on a red background.
pub open spec fn green_on_red_text(text: Seq<char>) -> Seq<char> {
    escape(seq!['3', '2', ';', '4', '1']) + text + escape(seq!['0'])
}

/// `value` in hexadecimal on a green background.
pub open spec fn on_green_hex_text(value: u8) -> Seq<char> {
    escape(seq!['4', '2']) + lower_hex(value) + escape(seq!['4', '9'])
}

/// The text that draws a glyph.
pub open spec fn painted(glyph: Glyph) -> Seq<char> {
    match glyph {
        Glyph::Digit(value) => on_green_hex_text(value),
        Glyph::Cargo => green_on_red_text(seq!['*']),
        Glyph::Head => on_yellow_text(seq!['@']),
        Glyph::Empty => seq![' '],
        Glyph::Plain(byte) => seq![byte as char],
        Glyph::Other => green_text(seq!['*']),
    }
}

/// Whether the head can be drawn: the cell under it holds the head's mark,
/// or a segment of the worm lies across it.
pub open spec fn head_intact(m: Machine) -> bool {
    m.body.contains(m.head) || m.cell(m.head) == HEAD
}

/// How the cell at `pos` is drawn.
pub open spec fn glyph_of(m: Machine, pos: (usize, usize)) -> Glyph {
    let byte = m.cell(pos);
    if m.body.contains(pos) {
        if byte < 10 {
            Glyph::Digit(byte)
        } else {
            Glyph::Cargo
        }
    } else if pos == m.head {
        Glyph::Head
    } else if byte == 0 || byte == SPACE {
        Glyph::Empty
    } else if 33 <= byte <= 126 {
        Glyph::Plain(byte)
    } else {
        Glyph::Other
    }
}

/// The text that draws the first `columns` cells of a row.
pub open spec fn row_text(m: Machine, row: usize, columns: nat) -> Seq<char>
    decreases columns,
{
    if columns == 0 {
        Seq::empty()
    } else {
        row_text(m, row, (columns - 1) as nat) + painted(
            glyph_of(m, ((columns - 1) as usize, row)),
        )
    }
}

/// The text that draws the first `rows` rows of the grid, each followed by a
/// line feed.
pub open spec fn grid_text(m: Machine, rows: nat) -> Seq<char>
    decreases rows,
{
    if rows == 0 {
        Seq::empty()
    } else {
        grid_text(m, (rows - 1) as nat) + row_text(m, (rows - 1) as usize, m.width()) + seq!['\n']
    }
}

/// The text that draws the whole grid.
pub open spec fn rendered(m: Machine) -> Seq<char> {
    grid_text(m, m.height())
}

/// Formats a byte in lower-case hexadecimal through
/// `owo_colors::OwoColorize::on_green`, which puts the escape sequence for a
/// green background before the digits and the one that resets the background
/// after them.
#[verifier::external_body]
fn on_green_hex(value: u8) -> (text: String)
    ensures
        text@ == on_green_hex_text(value),
{
    format!("{:x}", value.on_green())
}

/// Formats a string through `owo_colors::OwoColorize::green` followed by
/// `owo_colors::FgColorDisplay::on_red`, which together put one escape
/// sequence for green on red before the string and the one that resets every
/// attribute after it.
#[verifier::external_body]
fn green_on_red(content: &str) -> (text: String)
    ensures
        text@ == green_on_red_text(content@),
{
    format!("{}", content.green().on_red())
}

/// Formats a string through `owo_colors::OwoColorize::on_yellow`, which puts
/// the escape sequence for a yellow background before the string and the one
/// that resets the background after it.
#[verifier::external_body]
fn on_yellow(content: &str) -> (text: String)
    ensures
        text@ == on_yellow_text(content@),
{
    format!("{}", content.on_yellow())
}

/// Formats a string through `owo_colors::OwoColorize::green`, which puts the
/// escape sequence for a green foreground before the string and the one that
/// resets the foreground after it.
#[verifier::external_body]
fn green(content: &str) -> (text: String)
    ensures
        text@ == green_text(content@),
{
    format!("{}", content.green())
}

/// Formats a string through `owo_colors::OwoColorize::red`, which puts the
/// escape sequence for a red foreground before the string and the one that
/// resets the foreground after it.
#[verifier::external_body]
pub(crate) fn red(content: &str) -> (text: String)
    ensures
        text@ == red_text(content@),
{
    format!("{}", content.red())
}

/// Appends a character to a string with `String::push`.
#[verifier::external_body]
fn push_char(text: &mut String, c: char)
    ensures
        final(text)@ == old(text)@.push(c),
{
    text.push(c)
}

/// The text that draws a glyph.
pub fn paint(glyph: Glyph) -> (text: String)
    ensures
        text@ == painted(glyph),
{
    proof {
        reveal_strlit("*");
        reveal_strlit("@");
        reveal_strlit(" ");
    }
    match glyph {
        Glyph::Digit(value) => on_green_hex(value),
        Glyph::Cargo => {
            assert("*"@ =~= seq!['*']);
            green_on_red("*")
        },
        Glyph::Head => {
            assert("@"@ =~= seq!['@']);
            on_yellow("@")
        },
        Glyph::Empty => {
            assert(" "@ =~= seq![' ']);
            String::from_str(" ")
        },
        Glyph::Plain(byte) => {
            let mut text: String = String::new();
            push_char(&mut text, byte as char);
            assert(text@ =~= seq![byte as char]);
            text
        },
        Glyph::Other => {
            assert("*"@ =~= seq!['*']);
            green("*")
        },
    }
}

/// A step keeps the head drawable.
pub proof fn theorem_step_keeps_head_intact(m: Machine)
    requires
        m.wf(),
        head_intact(m),
    ensures
        head_intact(m.stepped()),
{
    if m.state == State::Running && m.ahead() is Some {
        theorem_step_marks_head(m);
    }
}

/// A program whose source marks where the worm is starts with a head that
/// can be drawn.
pub proof fn theorem_loaded_head_intact(lines: Seq<Seq<u8>>, input: Seq<u8>)
    requires
        exists|row: int| 0 <= row < lines.len() && has_mark(#[trigger] lines[row]),
        lines.len() <= usize::MAX,
        widest(lines) <= usize::MAX,
    ensures
        head_intact(Machine::loaded(lines, input)),
{
    lemma_start_marked(lines);
}

impl SandWormInterpreter {
    /// Whether a segment of the worm lies in the cell at `pos`.
    pub fn occupies(&self, pos: (usize, usize)) -> (found: bool)
        ensures
            found == self@.body.contains(pos),
    {
        let body: &Vec<(usize, usize)> = self.body();
        let mut i: usize = 0;
        while i < body.len()
            invariant
                i <= body.len(),
                body@ == self@.body,
                forall|j: int| 0 <= j < i ==> body@[j] != pos,
            decreases body.len() - i,
        {
            let segment: (usize, usize) = body[i];
            if segment.0 == pos.0 && segment.1 == pos.1 {
                return true;
            }
            i = i + 1;
        }
        false
    }

    /// Whether the head can be drawn. It can after every step that moved
    /// the head, and at the start if the source marked where the worm is.
    pub fn head_intact(&self) -> (intact: bool)
        requires
            self.wf(),
        ensures
            intact == head_intact(self@),
    {
        proof {
            self.lemma_wf_machine();
        }
        self.occupies(self.head()) || self.get(self.head()) == HEAD
    }

    /// How the cell at `pos` (column, row) is drawn.
    pub fn glyph_at(&self, pos: (usize, usize)) -> (glyph: Glyph)
        requires
            self.wf(),
            self@.contains(pos),
            pos == self@.head ==> head_intact(self@),
        ensures
            glyph == glyph_of(self@, pos),
    {
        let byte: u8 = self.get(pos);
        let head: (usize, usize) = self.head();
        if self.occupies(pos) {
            if byte < 10 {
                Glyph::Digit(byte)
            } else {
                Glyph::Cargo
            }
        } else if head.0 == pos.0 && head.1 == pos.1 {
            Glyph::Head
        } else if byte == 0 || byte == SPACE {
            Glyph::Empty
        } else if 33 <= byte && byte <= 126 {
            Glyph::Plain(byte)
        } else {
            Glyph::Other
        }
    }

    /// Draws the grid with the worm on it: one line of text for each row,
    /// the top row first.
    pub fn render(&self) -> (text: String)
        requires
            self.wf(),
            head_intact(self@),
        ensures
            text@ == rendered(self@),
    {
        let mut text: String = String::new();
        let width: usize = self.width();
        let height: usize = self.height();
        let mut row: usize = 0;
        while row < height
            invariant
                self.wf(),
                width == self@.width(),
                height == self@.height(),
                row <= height,
                head_intact(self@),
                text@ == grid_text(self@, row as nat),
            decreases height - row,
        {
            let ghost before = text@;
            let mut column: usize = 0;
            while column < width
                invariant
                    self.wf(),
                    width == self@.width(),
                    height == self@.height(),
                    row < height,
                    column <= width,
                    head_intact(self@),
                    text@ == before + row_text(self@, row, column as nat),
                decreases width - column,
            {
                let piece: String = paint(self.glyph_at((column, row)));
                text.append(piece.as_str());
                column = column + 1;
                assert(text@ =~= before + row_text(self@, row, column as nat));
            }
            proof {
                reveal_strlit("\n");
            }
            text.append("\n");
            row = row + 1;
            assert(text@ =~= grid_text(self@, row as nat));
        }
        text
    }
}

} // verus!
