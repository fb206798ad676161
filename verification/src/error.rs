//! What a lexer reports when a source is not a program.

use vstd::prelude::*;
use crate::token::Token;

verus! {

/// What an Ook word calls for at one of its four positions.
#[derive(Debug, Clone, Copy, PartialEq, Eq, Hash, Structural)]
pub enum Expected {
    /// The capital `O` that opens a word.
    UpperO,
    /// The small `o` in second place.
    LowerO,
    /// The `k` in third place.
    LowerK,
    /// One of the marks `.`, `?` and `!` that close a word.
    Punctuation,
}

/// Why a source was rejected.  Only the Ook lexer can fail.
#[derive(Debug, Clone, Copy, PartialEq, Eq, Hash, Structural)]
pub enum LexError {
    /// A letter or mark stood where the word in progress calls for
    /// something else.
    UnexpectedCharacter { got: char, expected: Expected },
    /// The source ends in the middle of a word.
    TruncatedWord,
    /// The source ends after a complete word that has no partner.
    UnpairedWord,
}

/// A lexer's result with the instructions as a mathematical sequence.
pub open spec fn lexed(result: Result<Vec<Token>, LexError>) -> Result<Seq<Token>, LexError> {
    match result {
        Ok(tokens) => Ok(tokens@),
        Err(error) => Err(error),
    }
}

} // verus!
