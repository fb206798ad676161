//! The Brainfuck front end: one character, one instruction.

use vstd::prelude::*;
use crate::token::Token;
use crate::strip::{lemma_filter_idempotent, lemma_filter_take_next};

verus! {

/// Whether `c` is one of the eight command characters.
pub open spec fn is_command(c: char) -> bool {
    c == '>' || c == '<' || c == '+' || c == '-' || c == '.' || c == ',' || c == '[' || c == ']'
}

/// The instruction a command character stands for.
pub open spec fn command_token(c: char) -> Token
    recommends
        is_command(c),
{
    if c == '>' {
        Token::Right
    } else if c == '<' {
        Token::Left
    } else if c == '+' {
        Token::Incr
    } else if c == '-' {
        Token::Decr
    } else if c == '.' {
        Token::Out
    } else if c == ',' {
        Token::In
    } else if c == '[' {
        Token::Begin
    } else {
        Token::End
    }
}

/// The characters of `source` that are commands, in order.
pub open spec fn commands(source: Seq<char>) -> Seq<char> {
    source.filter(|c: char| is_command(c))
}

/// The program a Brainfuck source denotes: its command characters, each
/// replaced by its instruction.
pub open spec fn brainfuck_tokens(source: Seq<char>) -> Seq<Token> {
    commands(source).map_values(|c: char| command_token(c))
}

/// Reads one character: `Some` instruction for a command, `None` for
/// anything else.
pub fn command_of(c: char) -> (token: Option<Token>)
    ensures
        token == if is_command(c) {
            Some(command_token(c))
        } else {
            None
        },
{
    match c {
        '>' => Some(Token::Right),
        '<' => Some(Token::Left),
        '+' => Some(Token::Incr),
        '-' => Some(Token::Decr),
        '.' => Some(Token::Out),
        ',' => Some(Token::In),
        '[' => Some(Token::Begin),
        ']' => Some(Token::End),
        _ => None,
    }
}

proof fn lemma_tokens_take_next(source: Seq<char>, i: int)
    requires
        0 <= i < source.len(),
    ensures
        brainfuck_tokens(source.take(i + 1)) == if is_command(source[i]) {
            brainfuck_tokens(source.take(i)).push(command_token(source[i]))
        } else {
            brainfuck_tokens(source.take(i))
        },
{
    lemma_filter_take_next(source, |c: char| is_command(c), i);
    if is_command(source[i]) {
        assert(brainfuck_tokens(source.take(i + 1)) =~= brainfuck_tokens(source.take(i)).push(
            command_token(source[i]),
        ));
    }
}

/// Lexes Brainfuck.  Every character that is not a command is skipped, so
/// this lexer accepts any text.
pub fn brainfuck_parser(plain: &str) -> (tokenized: Vec<Token>)
    ensures
        tokenized@ == brainfuck_tokens(plain@),
{
    let mut tokenized: Vec<Token> = Vec::new();
    assert(plain@.take(0).filter(|c: char| is_command(c)) =~= Seq::<char>::empty()) by {
        reveal(Seq::filter);
    }
    for c in it: plain.chars()
        invariant
            it.seq() == plain@,
            tokenized@ == brainfuck_tokens(plain@.take(it.index() as int)),
    {
        proof {
            lemma_tokens_take_next(plain@, it.index() as int);
        }
        match command_of(c) {
            Some(token) => tokenized.push(token),
            None => {},
        }
    }
    assert(plain@.take(plain@.len() as int) =~= plain@);
    tokenized
}

/// Characters that are not commands never matter: a source and the same
/// source with all of them removed denote the same program.
pub proof fn lemma_brainfuck_ignores_other_characters(source: Seq<char>)
    ensures
        brainfuck_tokens(commands(source)) == brainfuck_tokens(source),
{
    lemma_filter_idempotent(source, |c: char| is_command(c));
}

} // verus!
