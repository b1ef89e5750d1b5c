//! The instruction set: what each byte of the grid means when the worm's
//! head steps onto it.

use vstd::prelude::*;
use crate::direction::Direction;

verus! {

/// The byte that marks the cell under the worm's head: `@`.
pub const HEAD: u8 = 64;

/// The byte that fills a vacated cell when no swallowed byte is waiting: a space.
pub const SPACE: u8 = 32;

/// The digit `0`. The digits run from here to [`DIGIT_NINE`].
pub const DIGIT_ZERO: u8 = 48;

/// The digit `9`.
pub const DIGIT_NINE: u8 = 57;

/// `+`
pub const PLUS: u8 = 43;

/// `-`
pub const MINUS: u8 = 45;

/// `v`
pub const FACE_DOWN: u8 = 118;

/// `^`
pub const FACE_UP: u8 = 94;

/// `<`
pub const FACE_LEFT: u8 = 60;

/// `>`
pub const FACE_RIGHT: u8 = 62;

/// `"`
pub const QUOTE: u8 = 34;

/// `!`
pub const BANG: u8 = 33;

/// `?`
pub const QUERY: u8 = 63;

/// `=`
pub const EQUALS: u8 = 61;

/// `\`
pub const BACKSLASH: u8 = 92;

/// `/`
pub const SLASH: u8 = 47;

/// `_`
pub const UNDERSCORE: u8 = 95;

/// What a byte of the grid does when it is executed.
#[derive(Debug, Clone, Copy, PartialEq, Eq, Structural)]
pub enum Instruction {
    /// `0`..`9`: produce the digit's value.
    Digit(u8),
    /// `+`: consume two segments, produce their wrapping sum.
    Add,
    /// `-`: consume two segments, produce their wrapping difference.
    Subtract,
    /// `^ v < >`: face the given way.
    Face(Direction),
    /// `"`: consume one segment and write it to the output in decimal.
    WriteNumber,
    /// `!`: consume one segment and write it to the output as a raw byte.
    WriteByte,
    /// `?`: produce the next byte of the input, or zero once it is exhausted.
    ReadByte,
    /// `=`: produce a copy of the value in the neck.
    CopyNeck,
    /// `\`: consume one segment; bounce unless it was zero.
    MirrorBackslash,
    /// `/`: consume one segment; bounce the other way unless it was zero.
    MirrorSlash,
    /// A space or a null byte: nothing happens and nothing is swallowed.
    Pass,
    /// `_`: produce the space byte.
    Space,
    /// Any other byte: produce the byte itself.
    Literal(u8),
}

impl Instruction {
    /// The instruction that a byte stands for.
    pub open spec fn decoded(byte: u8) -> Instruction {
        if DIGIT_ZERO <= byte && byte <= DIGIT_NINE {
            Instruction::Digit((byte - DIGIT_ZERO) as u8)
        } else if byte == PLUS {
            Instruction::Add
        } else if byte == MINUS {
            Instruction::Subtract
        } else if byte == FACE_DOWN {
            Instruction::Face(Direction::Down)
        } else if byte == FACE_UP {
            Instruction::Face(Direction::Up)
        } else if byte == FACE_LEFT {
            Instruction::Face(Direction::Left)
        } else if byte == FACE_RIGHT {
            Instruction::Face(Direction::Right)
        } else if byte == QUOTE {
            Instruction::WriteNumber
        } else if byte == BANG {
            Instruction::WriteByte
        } else if byte == QUERY {
            Instruction::ReadByte
        } else if byte == EQUALS {
            Instruction::CopyNeck
        } else if byte == BACKSLASH {
            Instruction::MirrorBackslash
        } else if byte == SLASH {
            Instruction::MirrorSlash
        } else if byte == SPACE || byte == 0 {
            Instruction::Pass
        } else if byte == UNDERSCORE {
            Instruction::Space
        } else {
            Instruction::Literal(byte)
        }
    }

    /// Whether executing the instruction hands a value to the worm, so that
    /// the worm grows by a segment when it moves on.
    pub open spec fn produces_value(self) -> bool {
        match self {
            Instruction::Digit(_)
            | Instruction::Add
            | Instruction::Subtract
            | Instruction::ReadByte
            | Instruction::CopyNeck
            | Instruction::Space
            | Instruction::Literal(_) => true,
            _ => false,
        }
    }

    /// Whether the instruction's byte is swallowed, to be laid down again
    /// behind the worm later. Only a passive cell is not.
    pub open spec fn swallowed(self) -> bool {
        !(self is Pass)
    }

    /// How many segments the instruction takes off the worm's neck, given a
    /// body long enough.
    pub open spec fn operands(self) -> nat {
        match self {
            Instruction::Add | Instruction::Subtract => 2,
            Instruction::WriteNumber
            | Instruction::WriteByte
            | Instruction::MirrorBackslash
            | Instruction::MirrorSlash => 1,
            _ => 0,
        }
    }

    /// Classifies a byte of the grid.
    pub fn decode(byte: u8) -> (instruction: Instruction)
        ensures
            instruction == Instruction::decoded(byte),
    {
        if DIGIT_ZERO <= byte && byte <= DIGIT_NINE {
            Instruction::Digit(byte - DIGIT_ZERO)
        } else if byte == PLUS {
            Instruction::Add
        } else if byte == MINUS {
            Instruction::Subtract
        } else if byte == FACE_DOWN {
            Instruction::Face(Direction::Down)
        } else if byte == FACE_UP {
            Instruction::Face(Direction::Up)
        } else if byte == FACE_LEFT {
            Instruction::Face(Direction::Left)
        } else if byte == FACE_RIGHT {
            Instruction::Face(Direction::Right)
        } else if byte == QUOTE {
            Instruction::WriteNumber
        } else if byte == BANG {
            Instruction::WriteByte
        } else if byte == QUERY {
            Instruction::ReadByte
        } else if byte == EQUALS {
            Instruction::CopyNeck
        } else if byte == BACKSLASH {
            Instruction::MirrorBackslash
        } else if byte == SLASH {
            Instruction::MirrorSlash
        } else if byte == SPACE || byte == 0 {
            Instruction::Pass
        } else if byte == UNDERSCORE {
            Instruction::Space
        } else {
            Instruction::Literal(byte)
        }
    }
}

} // verus!
