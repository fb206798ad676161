//! The instruction set shared by all front ends.

use vstd::prelude::*;

verus! {

/// One instruction of the tape machine.
///
/// Instructions carry no payload: a loop marker does not know where its
/// partner is, the machine looks for it when it needs to jump.
#[derive(Debug, Clone, Copy, PartialEq, Eq, Hash, Structural)]
pub enum Token {
    /// Move the cursor one cell to the right.
    Right,
    /// Move the cursor one cell to the left.
    Left,
    /// Add one to the current cell, wrapping at 256.
    Incr,
    /// Subtract one from the current cell, wrapping at 0.
    Decr,
    /// Append the current cell to the output.
    Out,
    /// Store the next input byte in the current cell.
    In,
    /// Start of a loop.
    Begin,
    /// End of a loop.
    End,
    /// Stop the program.
    Exit,
    /// Append the whole tape to the output.
    Print,
}

/// The surface syntax a program is written in.
#[derive(Debug, Clone, Copy, PartialEq, Eq, Hash, Structural)]
pub enum Language {
    Brainfuck,
    Ook,
    Spoon,
}

impl Default for Language {
    /// Brainfuck is the language assumed when none is named.
    fn default() -> (language: Language)
        ensures
            language == Language::Brainfuck,
    {
        Language::Brainfuck
    }
}

} // verus!
