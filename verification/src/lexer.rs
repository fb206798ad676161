//! One entry point for the three front ends.

use vstd::prelude::*;
use crate::brainfuck::{brainfuck_parser, brainfuck_tokens, is_command};
use crate::error::{lexed, LexError};
use crate::ook::{
    is_letter, is_ook_char, lemma_ook_ignores_other_characters,
    lemma_skipped_character_changes_nothing, ook_parser, ook_tokens, position, stray_letter,
};
use crate::spoon::{is_bit, spoon_parser, spoon_tokens};
use crate::strip::{lemma_filter_idempotent, lemma_filter_insert_rejected};
use crate::token::{Language, Token};

verus! {

/// The characters a language is written in.
pub open spec fn alphabet(language: Language) -> spec_fn(char) -> bool {
    match language {
        Language::Brainfuck => |c: char| is_command(c),
        Language::Ook => |c: char| is_ook_char(c),
        Language::Spoon => |c: char| is_bit(c),
    }
}

/// `source` without the characters that are not in the alphabet of
/// `language`.
pub open spec fn stripped(language: Language, source: Seq<char>) -> Seq<char> {
    source.filter(alphabet(language))
}

/// What `source` denotes when read as `language`: a program, or the
/// reason why it is none.
pub open spec fn tokens_of(language: Language, source: Seq<char>) -> Result<
    Seq<Token>,
    LexError,
> {
    match language {
        Language::Brainfuck => Ok(brainfuck_tokens(source)),
        Language::Ook => ook_tokens(source),
        Language::Spoon => Ok(spoon_tokens(source)),
    }
}

/// Whether nothing outside the alphabet matters in `source`.  That is so
/// for every Brainfuck and Spoon source.  An Ook source is the exception
/// if it is rejected for a letter from outside the alphabet that stands
/// inside a word.
pub open spec fn strippable(language: Language, source: Seq<char>) -> bool {
    language == Language::Ook ==> !stray_letter(source)
}

/// Whether `c`, which is not in the alphabet, is skipped at index `at` of
/// `source`.  Brainfuck and Spoon skip it anywhere; Ook skips a letter
/// only where no word is in progress.
pub open spec fn skipped(language: Language, source: Seq<char>, at: int, c: char) -> bool {
    language == Language::Ook && is_letter(c) ==> position(source, at) % 4 == 0
}

/// Lexes `source` as `language`.  Brainfuck and Spoon accept every text;
/// Ook reports the first thing wrong with it.
pub fn lex(language: Language, source: &str) -> (result: Result<Vec<Token>, LexError>)
    ensures
        lexed(result) == tokens_of(language, source@),
{
    match language {
        Language::Brainfuck => Ok(brainfuck_parser(source)),
        Language::Ook => ook_parser(source),
        Language::Spoon => Ok(spoon_parser(source)),
    }
}

/// A source in which nothing outside the alphabet matters denotes the
/// same as the source stripped.
pub proof fn lemma_stripping_changes_nothing(language: Language, source: Seq<char>)
    requires
        strippable(language, source),
    ensures
        tokens_of(language, stripped(language, source)) == tokens_of(language, source),
{
    lemma_filter_idempotent(source, alphabet(language));
    if language == Language::Ook {
        lemma_ook_ignores_other_characters(source);
    }
}

/// What a source denotes depends only on the characters of the alphabet
/// in it: two sources in which nothing else matters, and which are equal
/// once stripped, denote the same.
pub proof fn lemma_only_the_alphabet_counts(language: Language, a: Seq<char>, b: Seq<char>)
    requires
        stripped(language, a) == stripped(language, b),
        strippable(language, a),
        strippable(language, b),
    ensures
        tokens_of(language, a) == tokens_of(language, b),
{
    lemma_stripping_changes_nothing(language, a);
    lemma_stripping_changes_nothing(language, b);
}

/// A character from outside the alphabet can be put into a source
/// wherever it is skipped without changing what the source denotes.
pub proof fn lemma_foreign_character_changes_nothing(
    language: Language,
    source: Seq<char>,
    at: int,
    c: char,
)
    requires
        0 <= at <= source.len(),
        !alphabet(language)(c),
        skipped(language, source, at, c),
    ensures
        tokens_of(language, source.insert(at, c)) == tokens_of(language, source),
{
    if language == Language::Ook {
        lemma_skipped_character_changes_nothing(source, at, c);
    } else {
        lemma_filter_insert_rejected(source, alphabet(language), at, c);
    }
}

} // verus!
