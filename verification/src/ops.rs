//! The instruction set: opcodes and the instruction word that carries them.

use vstd::prelude::*;

verus! {

/// Maximum number of instruction slots in a program, the terminating
/// [`Opcode::End`] sentinel included.
pub const CODE_MAX_SIZE: usize = 8192;

/// Number of cells on the tape.
pub const CODE_MAX_DATA: usize = 4096;

/// The fixed vocabulary of operations.
#[derive(Clone, Copy, PartialEq, Eq, Structural, Debug)]
pub enum Opcode {
    /// `+`: increment the current cell, wrapping on overflow.
    IncrementCell,
    /// `-`: decrement the current cell, clamped at zero.
    DecrementCell,
    /// `>`: move the pointer one cell to the right; moving past the end of
    /// the tape is a runtime error.
    MovePointerRight,
    /// `<`: move the pointer one cell to the left, clamped at zero.
    MovePointerLeft,
    /// `[`: jump just past the matching `LoopEnd` when the current cell is zero.
    LoopStart,
    /// `]`: jump just past the matching `LoopStart` when the current cell is non-zero.
    LoopEnd,
    /// `.`: emit the low byte of the current cell.
    Output,
    /// `,`: read one byte into the current cell; exhausted input yields zero.
    Input,
    /// Sentinel appended by the parser after the last source-derived
    /// instruction; fetching it halts the run.
    End,
}

/// One instruction word: an opcode and its operand.
///
/// The operand is meaningful only for `LoopStart` and `LoopEnd`, where it
/// holds the index of the matching bracket instruction. For the other
/// opcodes it is unused (set to a constant step of 1 for the four
/// cell/pointer operations, 0 otherwise, and never read).
#[derive(Clone, Copy, PartialEq, Eq, Structural, Debug)]
pub struct Operation {
    pub opcode: Opcode,
    pub operand: usize,
}

} // verus!
