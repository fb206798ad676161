//! Lexers for three small tape languages (Brainfuck and its relatives Ook
//! and Spoon) together with the tape machine that runs what they produce.
//!
//! Every front end yields the same [`Token`](token::Token) sequence;
//! [`machine::execute`] runs such a sequence against a fixed-size byte tape.
//!
//! * [`token`], [`error`]: the instruction set and what a lexer reports.
//! * [`brainfuck`], [`ook`], [`spoon`]: the three lexers, each specified
//!   over the characters of its language in the source; [`lexer`] chooses
//!   among them.
//! * [`tape`]: the memory.
//! * [`semantics`]: what a step and a run of the machine are.
//! * [`machine`]: the machine itself.
//! * [`laws`]: what follows for every program.

pub mod token;
pub mod error;
pub mod strip;
pub mod brainfuck;
pub mod ook;
pub mod spoon;
pub mod lexer;
pub mod tape;
pub mod semantics;
pub mod machine;
pub mod laws;
