//! The commands of the interactive shell and how a line of text is read as
//! one.
//!
//! A line that starts with `input ` feeds the rest of the line to the
//! program. Any other line is cut into words at white space: no word or the
//! word `step` takes one step, `step` with a number takes that many, and
//! `q`, `exit` or `quit` leaves the shell.

use vstd::prelude::*;
use vstd::string::*;
use vstd::utf8::encode_utf8;
use crate::grid::{rows_view, NEWLINE};
use crate::interpreter::SandWormInterpreter;
use crate::machine::Machine;
use crate::render::{red, red_text};

verus! {

/// What the shell is asked to do.
#[derive(Debug, PartialEq, Eq)]
pub enum Command {
    /// Append these bytes to the program's input.
    Feed(Vec<u8>),
    /// Take one step.
    StepOnce,
    /// Take this many steps.
    Step(usize),
    /// `step` with something that is no number: do nothing.
    Skip,
    /// Leave the shell.
    Quit,
    /// The line is no command.
    Unrecognised,
}

/// What the shell does after a command.
#[derive(Debug, Clone, Copy, PartialEq, Eq, Structural)]
pub enum Reply {
    /// Show the program and ask for the next command.
    Proceed,
    /// Say that the command was not recognised, and go on as for `Proceed`.
    Complain,
    /// Stop.
    Leave,
}

/// Whether a byte is ASCII white space: a space, a tab, a line feed, a form
/// feed or a carriage return.
pub open spec fn blank(byte: u8) -> bool {
    byte == 32 || byte == 9 || byte == 10 || byte == 12 || byte == 13
}

/// The number of bytes from index `from` up to the next white space, or up
/// to the end of `text` if none follows.
pub open spec fn word_length(text: Seq<u8>, from: int) -> nat
    decreases text.len() - from,
{
    if from < 0 || from >= text.len() || blank(text[from]) {
        0
    } else {
        1 + word_length(text, from + 1)
    }
}

/// The words of the part of `text` that starts at index `from`: the longest
/// stretches without white space, in order.
pub open spec fn words_from(text: Seq<u8>, from: int) -> Seq<Seq<u8>>
    decreases text.len() - from,
{
    if from < 0 || from >= text.len() {
        Seq::empty()
    } else if blank(text[from]) {
        words_from(text, from + 1)
    } else {
        let end = from + 1 + word_length(text, from + 1);
        if end >= text.len() {
            seq![text.subrange(from, end)]
        } else {
            seq![text.subrange(from, end)] + words_from(text, end)
        }
    }
}

/// The words of `text`.
pub open spec fn words(text: Seq<u8>) -> Seq<Seq<u8>> {
    words_from(text, 0)
}

/// The value of a decimal digit, zero for any other byte.
pub open spec fn digit_value(byte: u8) -> nat {
    if 48 <= byte <= 57 {
        (byte - 48) as nat
    } else {
        0
    }
}

/// The number that a sequence of decimal digits writes.
pub open spec fn digits_value(digits: Seq<u8>) -> nat
    decreases digits.len(),
{
    if digits.len() == 0 {
        0
    } else {
        digits_value(digits.drop_last()) * 10 + digit_value(digits.last())
    }
}

/// Whether every byte is a decimal digit.
pub open spec fn all_digits(digits: Seq<u8>) -> bool {
    forall|i: int| 0 <= i < digits.len() ==> 48 <= #[trigger] digits[i] <= 57
}

/// `word` without the `+` at its start, if it has one.
pub open spec fn unsigned_part(word: Seq<u8>) -> Seq<u8> {
    if word.len() > 0 && word[0] == 43 {
        word.drop_first()
    } else {
        word
    }
}

/// The count that `word` writes: one or more decimal digits, after a `+` or
/// not, whose value fits a `usize`. Anything else writes no count.
pub open spec fn count_of(word: Seq<u8>) -> Option<usize> {
    let digits = unsigned_part(word);
    if digits.len() > 0 && all_digits(digits) && digits_value(digits) <= usize::MAX {
        Some(digits_value(digits) as usize)
    } else {
        None
    }
}

/// The bytes of `input `, which starts a line that feeds the program.
pub open spec fn feed_prefix() -> Seq<u8> {
    seq![105, 110, 112, 117, 116, 32]
}

/// The bytes of `step`.
pub open spec fn step_word() -> Seq<u8> {
    seq![115, 116, 101, 112]
}

/// Whether `word` asks to leave: `q`, `exit` or `quit`.
pub open spec fn quit_word(word: Seq<u8>) -> bool {
    word == seq![113u8] || word == seq![101u8, 120, 105, 116] || word == seq![113u8, 117, 105, 116]
}

/// Whether `line` feeds the program: whether it starts with `input `.
pub open spec fn feeds(line: Seq<u8>) -> bool {
    line.len() >= 6 && line.subrange(0, 6) == feed_prefix()
}

/// The bytes that a feeding line feeds: what follows `input `, without the
/// line feed at the end of the line if there is one.
pub open spec fn fed(line: Seq<u8>) -> Seq<u8> {
    if line.len() > 0 && line.last() == NEWLINE {
        line.subrange(6, line.len() - 1)
    } else {
        line.subrange(6, line.len() as int)
    }
}

/// Whether `command` is what a line says, given the bytes of the line and
/// the bytes of the line without the white space around it.
pub open spec fn stands_for(command: Command, line: Seq<u8>, inner: Seq<u8>) -> bool {
    let said = words(inner);
    match command {
        Command::Feed(bytes) => feeds(line) && bytes@ == fed(line),
        Command::StepOnce => !feeds(line) && (said.len() == 0 || said == seq![step_word()]),
        Command::Step(n) => !feeds(line) && said.len() == 2 && said[0] == step_word() && count_of(
            said[1],
        ) == Some(n),
        Command::Skip => !feeds(line) && said.len() == 2 && said[0] == step_word() && count_of(
            said[1],
        ) is None,
        Command::Quit => !feeds(line) && said.len() == 1 && quit_word(said[0]),
        Command::Unrecognised => {
            &&& !feeds(line)
            &&& said.len() != 0
            &&& !(said.len() <= 2 && said[0] == step_word())
            &&& !(said.len() == 1 && quit_word(said[0]))
        },
    }
}

/// What `str::trim` makes of a text.
pub uninterp spec fn trimmed(text: Seq<char>) -> Seq<char>;

/// Calls `str::trim`, which returns the text without the white space, as
/// Unicode defines it, at its start and at its end.
#[verifier::external_body]
fn trim(line: &str) -> (inner: &str)
    ensures
        inner@ == trimmed(line@),
{
    line.trim()
}

/// A stretch without white space belongs to one word.
proof fn lemma_word_length_split(text: Seq<u8>, from: int, end: int)
    requires
        0 <= from <= end <= text.len(),
        forall|k: int| from <= k < end ==> !blank(text[k]),
    ensures
        word_length(text, from) == (end - from) + word_length(text, end),
    decreases end - from,
{
    if from < end {
        lemma_word_length_split(text, from + 1, end);
    }
}

/// Cuts `text` into its words.
pub fn split_words(text: &[u8]) -> (said: Vec<Vec<u8>>)
    ensures
        rows_view(said@) == words(text@),
{
    let mut said: Vec<Vec<u8>> = Vec::new();
    let mut from: usize = 0;
    assert(rows_view(said@) + words_from(text@, 0) =~= words(text@));
    while from < text.len()
        invariant
            from <= text.len(),
            words(text@) == rows_view(said@) + words_from(text@, from as int),
        decreases text.len() - from,
    {
        if is_blank(text[from]) {
            from = from + 1;
        } else {
            let mut word: Vec<u8> = Vec::new();
            word.push(text[from]);
            let mut end: usize = from + 1;
            assert(word@ =~= text@.subrange(from as int, end as int));
            while end < text.len() && !is_blank(text[end])
                invariant
                    from < end <= text.len(),
                    word@ == text@.subrange(from as int, end as int),
                    forall|k: int| from < k < end ==> !blank(text@[k]),
                decreases text.len() - end,
            {
                word.push(text[end]);
                end = end + 1;
                assert(word@ =~= text@.subrange(from as int, end as int));
            }
            proof {
                lemma_word_length_split(text@, from + 1, end as int);
            }
            let ghost before = rows_view(said@);
            let ghost rest = words_from(text@, from as int);
            said.push(word);
            assert(rows_view(said@) =~= before.push(word@));
            assert(words_from(text@, end as int) =~= if end >= text@.len() {
                Seq::<Seq<u8>>::empty()
            } else {
                words_from(text@, end as int)
            });
            assert(before.push(word@) + words_from(text@, end as int) =~= before + rest);
            from = end;
        }
    }
    assert(rows_view(said@) + words_from(text@, from as int) =~= rows_view(said@));
    said
}

/// Whether a byte is ASCII white space.
pub fn is_blank(byte: u8) -> (yes: bool)
    ensures
        yes == blank(byte),
{
    byte == 32 || byte == 9 || byte == 10 || byte == 12 || byte == 13
}

/// A number written with more digits is no smaller.
proof fn lemma_digits_value_grows(digits: Seq<u8>, shorter: int)
    requires
        0 <= shorter <= digits.len(),
    ensures
        digits_value(digits.subrange(0, shorter)) <= digits_value(digits),
    decreases digits.len() - shorter,
{
    if shorter < digits.len() {
        lemma_digits_value_grows(digits.drop_last(), shorter);
        assert(digits.drop_last().subrange(0, shorter) =~= digits.subrange(0, shorter));
    } else {
        assert(digits.subrange(0, shorter) =~= digits);
    }
}

/// Reads `word` as a count.
pub fn parse_count(word: &Vec<u8>) -> (count: Option<usize>)
    ensures
        count == count_of(word@),
{
    let start: usize = if word.len() > 0 && word[0] == 43 {
        1
    } else {
        0
    };
    let ghost digits = unsigned_part(word@);
    assert(digits =~= word@.subrange(start as int, word@.len() as int));
    if start == word.len() {
        return None;
    }
    let mut value: usize = 0;
    let mut i: usize = start;
    assert(digits.subrange(0, 0) =~= Seq::empty());
    while i < word.len()
        invariant
            start <= i <= word.len(),
            digits == word@.subrange(start as int, word@.len() as int),
            digits == unsigned_part(word@),
            digits.len() > 0,
            all_digits(digits.subrange(0, i - start)),
            value == digits_value(digits.subrange(0, i - start)),
        decreases word.len() - i,
    {
        let byte: u8 = word[i];
        let ghost shorter = digits.subrange(0, i - start);
        let ghost longer = digits.subrange(0, i - start + 1);
        assert(longer.drop_last() =~= shorter);
        assert(longer.last() == byte);
        if byte < 48 || byte > 57 {
            assert(digits[i - start] == byte);
            assert(!all_digits(digits));
            return None;
        }
        proof {
            lemma_digits_value_grows(digits, i - start + 1);
            assert(digits_value(longer) == value * 10 + (byte - 48));
        }
        let tens: usize = match value.checked_mul(10) {
            Some(tens) => tens,
            None => {
                return None;
            },
        };
        value = match tens.checked_add((byte - 48) as usize) {
            Some(sum) => sum,
            None => {
                return None;
            },
        };
        i = i + 1;
        assert forall|k: int| 0 <= k < longer.len() implies 48 <= #[trigger] longer[k] <= 57 by {
            if k < shorter.len() {
                assert(shorter[k] == longer[k]);
            }
        }
    }
    assert(digits.subrange(0, i - start) =~= digits);
    Some(value)
}

/// Whether `word` is `step`.
fn is_step(word: &Vec<u8>) -> (yes: bool)
    ensures
        yes == (word@ == step_word()),
{
    let yes: bool = word.len() == 4 && word[0] == 115 && word[1] == 116 && word[2] == 101 && word[3]
        == 112;
    assert(yes ==> word@ =~= step_word());
    yes
}

/// Whether `word` is `q`, `exit` or `quit`.
fn is_quit(word: &Vec<u8>) -> (yes: bool)
    ensures
        yes == quit_word(word@),
{
    let q: bool = word.len() == 1 && word[0] == 113;
    let exit: bool = word.len() == 4 && word[0] == 101 && word[1] == 120 && word[2] == 105
        && word[3] == 116;
    let quit: bool = word.len() == 4 && word[0] == 113 && word[1] == 117 && word[2] == 105
        && word[3] == 116;
    assert(q ==> word@ =~= seq![113u8]);
    assert(exit ==> word@ =~= seq![101u8, 120, 105, 116]);
    assert(quit ==> word@ =~= seq![113u8, 117, 105, 116]);
    q || exit || quit
}

/// Whether `line` starts with `input `.
fn is_feed(line: &[u8]) -> (yes: bool)
    ensures
        yes == feeds(line@),
{
    let yes: bool = line.len() >= 6 && line[0] == 105 && line[1] == 110 && line[2] == 112
        && line[3] == 117 && line[4] == 116 && line[5] == 32;
    if line.len() >= 6 {
        assert(yes ==> line@.subrange(0, 6) =~= feed_prefix());
        assert(!yes ==> line@.subrange(0, 6) != feed_prefix()) by {
            let head = line@.subrange(0, 6);
            assert(head[0] == line@[0] && head[1] == line@[1] && head[2] == line@[2] && head[3]
                == line@[3] && head[4] == line@[4] && head[5] == line@[5]);
        }
    }
    yes
}

/// Reads a line as a command, given the line without the white space around
/// it as well.
pub fn command_from(line: &[u8], inner: &[u8]) -> (command: Command)
    ensures
        stands_for(command, line@, inner@),
{
    if is_feed(line) {
        let end: usize = if line[line.len() - 1] == NEWLINE {
            line.len() - 1
        } else {
            line.len()
        };
        let mut bytes: Vec<u8> = Vec::new();
        let mut i: usize = 6;
        assert(line@[5] == 32) by {
            assert(line@.subrange(0, 6)[5] == feed_prefix()[5]);
        }
        while i < end
            invariant
                6 <= i <= end <= line.len(),
                bytes@ == line@.subrange(6, i as int),
            decreases end - i,
        {
            bytes.push(line[i]);
            i = i + 1;
            assert(bytes@ =~= line@.subrange(6, i as int));
        }
        return Command::Feed(bytes);
    }
    let said: Vec<Vec<u8>> = split_words(inner);
    assert(forall|k: int| 0 <= k < said@.len() ==> rows_view(said@)[k] == (#[trigger] said@[k])@);
    if said.len() == 0 {
        Command::StepOnce
    } else if said.len() == 1 {
        if is_step(&said[0]) {
            assert(rows_view(said@) =~= seq![step_word()]);
            Command::StepOnce
        } else if is_quit(&said[0]) {
            Command::Quit
        } else {
            Command::Unrecognised
        }
    } else if said.len() == 2 && is_step(&said[0]) {
        match parse_count(&said[1]) {
            Some(n) => Command::Step(n),
            None => Command::Skip,
        }
    } else {
        Command::Unrecognised
    }
}

/// Reads a line of text as a command.
pub fn parse_command(line: &str) -> (command: Command)
    ensures
        stands_for(command, line.spec_bytes(), encode_utf8(trimmed(line@))),
{
    let inner: &str = trim(line);
    command_from(line.as_bytes(), inner.as_bytes())
}

/// What the shell says to a line that is no command: `unrecognised
/// command`, in red.
pub fn complaint() -> (text: String)
    ensures
        text@ == red_text("unrecognised command"@),
{
    red("unrecognised command")
}

impl SandWormInterpreter {
    /// What the program is after a command.
    pub open spec fn obeying(m: Machine, command: Command) -> Machine {
        match command {
            Command::Feed(bytes) => Machine { input: m.input + bytes@, ..m },
            Command::StepOnce => m.stepped(),
            Command::Step(n) => m.stepped_n(n as nat),
            _ => m,
        }
    }

    /// Carries out a command and says what the shell does next.
    pub fn obey(&mut self, command: &Command) -> (reply: Reply)
        requires
            old(self).wf(),
        ensures
            final(self).wf(),
            final(self)@ == Self::obeying(old(self)@, *command),
            reply == match *command {
                Command::Quit => Reply::Leave,
                Command::Unrecognised => Reply::Complain,
                _ => Reply::Proceed,
            },
    {
        match command {
            Command::Feed(bytes) => {
                self.feed_input(bytes.as_slice());
                Reply::Proceed
            },
            Command::StepOnce => {
                self.step_once();
                Reply::Proceed
            },
            Command::Step(n) => {
                self.step(*n);
                Reply::Proceed
            },
            Command::Skip => Reply::Proceed,
            Command::Quit => Reply::Leave,
            Command::Unrecognised => Reply::Complain,
        }
    }
}

} // verus!
