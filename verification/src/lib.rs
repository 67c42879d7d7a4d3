//! An interactive interpreter for an eight-instruction tape-machine language,
//! extended with a small set of shell directives that control the session.
//!
//! The crate is organised leaf-first:
//! - [`enums`] holds the instruction model, the error kinds and the session signals;
//! - [`bracket_pair`] holds one matched pair of loop brackets;
//! - [`parser`] lexes a source line into instructions and resolves bracket pairs;
//! - [`memory_space`] is the growable tape of fixed-width cells with one cursor;
//! - [`command_iterator`] walks an instruction sequence, jumping across loops;
//! - [`interpreter`] executes an instruction sequence against a tape.

pub mod bracket_pair;
pub mod command_iterator;
pub mod enums;
pub mod interpreter;
pub mod memory_space;
pub mod parser;
