//! The instruction model: tape operations, shell operations, the tagged union
//! that carries either, the cell widths, the error kinds and the session signals.

use vstd::prelude::*;

verus! {

/// One of the eight tape operations.
#[derive(Clone, Copy, Debug, PartialEq, Eq, Structural)]
pub enum BrainfuckCommand {
    /// `>`: move the cursor one cell to the right, growing the tape if needed.
    PointerIncrement,
    /// `<`: move the cursor one cell to the left; fails at the origin.
    PointerDecrement,
    /// `+`: increment the cell at the cursor, wrapping at the cell's width.
    DataIncrement,
    /// `-`: decrement the cell at the cursor, wrapping at the cell's width.
    DataDecrement,
    /// `.`: read the cell at the cursor as a character and emit it.
    ReturnDataAtPointer,
    /// `,`: read one character from the input and store it at the cursor.
    WriteDataToPointer,
    /// `[`: if the cell at the cursor is zero, jump past the matching `]`.
    OpenBracket,
    /// `]`: if the cell at the cursor is non-zero, jump past the matching `[`.
    ClosedBracket,
}

/// One of the three shell directives, written `:r`, `:p`, `:q` in a source line.
#[derive(Clone, Copy, Debug, PartialEq, Eq, Structural)]
pub enum ShellCommand {
    /// `:r`: restore the tape to a single zero cell and clear the output buffer.
    ResetValues,
    /// `:p`: emit the accumulated output buffer as one unit, then clear it.
    PrintString,
    /// `:q`: terminate the session immediately.
    QuitProgram,
}

/// An instruction: either a tape operation or a shell directive.
#[derive(Clone, Copy, Debug, PartialEq, Eq, Structural)]
pub enum Command {
    Brainfuck(BrainfuckCommand),
    Shell(ShellCommand),
}

/// One addressable storage cell, holding its fixed-width unsigned value.
#[derive(Clone, Copy, Debug, PartialEq, Eq, Structural)]
pub enum MemoryUnit {
    /// The classic width: 8 bits, wrapping modulo 256.
    Int8Bit(u8),
    /// The wide variant: 32 bits, wrapping modulo 2^32.
    Int32Bit(u32),
}

/// The cell width a tape is created with; fixed for the tape's lifetime.
#[derive(Clone, Copy, Debug, PartialEq, Eq, Structural)]
pub enum MemoryUnitType {
    Int8Bit,
    Int32Bit,
}

/// Why a source line was rejected before execution.
#[derive(Clone, Copy, Debug, PartialEq, Eq, Structural)]
pub enum LexError {
    /// The counts of `[` and `]` instructions differ; found by the lexer.
    UnbalancedBrackets,
    /// A `]` at this instruction index has no pending `[`; found by the resolver.
    UnmatchedClose(usize),
    /// A `[` was never closed; found by the resolver after its scan.
    UnmatchedOpen,
}

/// Why a tape operation was refused.
#[derive(Clone, Copy, Debug, PartialEq, Eq, Structural)]
pub enum TapeError {
    /// A retreat was asked for while the cursor was already at cell 0.
    AtOrigin,
}

/// The terminal outcome of executing one instruction sequence.
#[derive(Clone, Copy, Debug, PartialEq, Eq, Structural)]
pub enum SessionSignal {
    /// The whole sequence ran; the session goes on to the next line.
    Continue,
    /// A `:q` directive was executed; the session ends.
    Quit,
    /// A `.` found a cell value that is no Unicode scalar value; the run stopped.
    Halted,
}

} // verus!
