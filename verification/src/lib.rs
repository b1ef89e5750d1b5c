//! An execution engine for a two-dimensional, self-modifying language.
//!
//! A program is a rectangular grid of bytes. A single worm crawls over the
//! grid: the cell in front of its head is executed as an instruction, values
//! it produces become segments of its body, and the cells it leaves behind are
//! refilled with the instruction bytes it swallowed earlier.
//!
//! The semantics is given once, as a mathematical model ([`machine::Machine`]),
//! and the executable [`interpreter::SandWormInterpreter`] is proved to follow
//! it step by step.

pub mod command;
pub mod direction;
pub mod grid;
pub mod instruction;
pub mod interpreter;
pub mod machine;
pub mod render;
pub mod theorems;

pub use direction::{Direction, State};
pub use grid::parse;
pub use instruction::Instruction;
pub use interpreter::{LoadError, SandWormInterpreter};
pub use machine::Machine;
