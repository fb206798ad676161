//! The Ook front end: instructions are spelled as pairs of the words
//! `Ook.`, `Ook?` and `Ook!`.
//!
//! The language is written in six characters: `O`, `o`, `k` and the three
//! marks.  Each of them must stand where the spelling of the words calls
//! for it.  Every other character is skipped, with one exception: a letter
//! from outside the language that stands inside a word, as the `x` in
//! `Ookx`, is an error like a misplaced character of the language.  So
//! text between the words is free, and spaces, line breaks, digits and
//! other punctuation are free everywhere.

use vstd::prelude::*;
use crate::error::{lexed, Expected, LexError};
use crate::strip::{
    lemma_filter_idempotent, lemma_filter_insert_rejected, lemma_filter_keeps_all,
    lemma_filter_split, lemma_filter_take_next,
};
use crate::token::Token;

verus! {

/// The mark that closes an Ook word and tells the three words apart.
#[derive(Debug, Clone, Copy, PartialEq, Eq, Hash, Structural)]
pub enum Mark {
    /// `.`
    Period,
    /// `?`
    Question,
    /// `!`
    Bang,
}

/// Whether `c` is an ASCII letter.
pub open spec fn is_letter(c: char) -> bool {
    ('a' <= c && c <= 'z') || ('A' <= c && c <= 'Z')
}

/// Whether `c` is one of the three marks.
pub open spec fn is_mark(c: char) -> bool {
    c == '.' || c == '?' || c == '!'
}

/// Whether `c` is one of the six characters the language is written in.
pub open spec fn is_ook_char(c: char) -> bool {
    c == 'O' || c == 'o' || c == 'k' || is_mark(c)
}

/// The mark a character stands for.
pub open spec fn mark_of(c: char) -> Mark
    recommends
        is_mark(c),
{
    if c == '.' {
        Mark::Period
    } else if c == '?' {
        Mark::Question
    } else {
        Mark::Bang
    }
}

/// The instruction spelled by two words, given by their marks.  All nine
/// pairs are taken: nine instructions, and no pair left over.
pub open spec fn pair_token(first: Mark, second: Mark) -> Token {
    match (first, second) {
        (Mark::Period, Mark::Question) => Token::Right,
        (Mark::Question, Mark::Period) => Token::Left,
        (Mark::Period, Mark::Period) => Token::Incr,
        (Mark::Bang, Mark::Bang) => Token::Decr,
        (Mark::Bang, Mark::Period) => Token::Out,
        (Mark::Period, Mark::Bang) => Token::In,
        (Mark::Bang, Mark::Question) => Token::Begin,
        (Mark::Question, Mark::Bang) => Token::End,
        (Mark::Question, Mark::Question) => Token::Exit,
    }
}

/// What the character of the language must be that has `position` such
/// characters before it: words are four characters long, and between them
/// stands nothing that belongs to the language.
pub open spec fn expected_at(position: int) -> Expected {
    let head = position % 4;
    if head == 0 {
        Expected::UpperO
    } else if head == 1 {
        Expected::LowerO
    } else if head == 2 {
        Expected::LowerK
    } else {
        Expected::Punctuation
    }
}

/// Whether `c` is what `expected` calls for.
pub open spec fn fits(c: char, expected: Expected) -> bool {
    match expected {
        Expected::UpperO => c == 'O',
        Expected::LowerO => c == 'o',
        Expected::LowerK => c == 'k',
        Expected::Punctuation => is_mark(c),
    }
}

/// The instructions of a text: one for each full pair of words, read off
/// the marks at the end of the two words.
pub open spec fn pairs(text: Seq<char>) -> Seq<Token> {
    Seq::new(
        (text.len() / 8) as nat,
        |k: int| pair_token(mark_of(text[8 * k + 3]), mark_of(text[8 * k + 7])),
    )
}

/// The characters of the language in `source`, in order.
pub open spec fn ook_chars(source: Seq<char>) -> Seq<char> {
    source.filter(|c: char| is_ook_char(c))
}

/// How many characters of the language stand before index `i` of
/// `source`.  A word is in progress there unless this is a multiple of 4.
pub open spec fn position(source: Seq<char>, i: int) -> int {
    ook_chars(source.take(i)).len() as int
}

/// Whether `c` may stand in a source after `position` characters of the
/// language: a character of the language must be the one the spelling
/// calls for, another letter must stand between two words, and anything
/// else may stand anywhere.
pub open spec fn admitted(c: char, position: int) -> bool {
    if is_ook_char(c) {
        fits(c, expected_at(position))
    } else if is_letter(c) {
        position % 4 == 0
    } else {
        true
    }
}

/// Whether every character of `source` before index `i` is admitted
/// where it stands.
pub open spec fn admitted_before(source: Seq<char>, i: int) -> bool {
    forall|j: int| 0 <= j < i ==> admitted(source[j], #[trigger] position(source, j))
}

/// Whether `source` goes wrong at index `i` and nowhere before.
pub open spec fn misfit_at(source: Seq<char>, i: int) -> bool {
    &&& 0 <= i < source.len()
    &&& admitted_before(source, i)
    &&& !admitted(source[i], position(source, i))
}

/// What an Ook source denotes.
///
/// The first character that is not admitted where it stands is reported
/// with what the word in progress called for.  If there is none, the
/// characters of the language in the source are a run of four-character
/// words.  A source that stops inside a word is truncated; one with an odd
/// number of words leaves its last word unpaired.  Otherwise each pair of
/// words is one instruction.
pub open spec fn ook_tokens(source: Seq<char>) -> Result<Seq<Token>, LexError> {
    let text = ook_chars(source);
    if exists|i: int| misfit_at(source, i) {
        let i = choose|i: int| misfit_at(source, i);
        Err(
            LexError::UnexpectedCharacter {
                got: source[i],
                expected: expected_at(position(source, i)),
            },
        )
    } else if text.len() % 4 != 0 {
        Err(LexError::TruncatedWord)
    } else if text.len() % 8 != 0 {
        Err(LexError::UnpairedWord)
    } else {
        Ok(pairs(text))
    }
}

/// Whether `source` is rejected for a letter from outside the language
/// that stands inside a word.
pub open spec fn stray_letter(source: Seq<char>) -> bool {
    exists|i: int| misfit_at(source, i) && !is_ook_char(source[i])
}

/// A source goes wrong in at most one place.
pub proof fn lemma_misfit_unique(source: Seq<char>, i: int, j: int)
    requires
        misfit_at(source, i),
        misfit_at(source, j),
    ensures
        i == j,
{
}

/// A source whose characters are all admitted goes wrong nowhere.
pub proof fn lemma_admitted_has_no_misfit(source: Seq<char>)
    requires
        admitted_before(source, source.len() as int),
    ensures
        forall|i: int| !misfit_at(source, i),
{
}

/// A source that goes wrong nowhere has all its characters admitted.
pub proof fn lemma_no_misfit_is_admitted(source: Seq<char>, i: int)
    requires
        forall|j: int| !misfit_at(source, j),
        0 <= i <= source.len(),
    ensures
        admitted_before(source, i),
    decreases i,
{
    if i > 0 {
        lemma_no_misfit_is_admitted(source, i - 1);
        assert(!misfit_at(source, i - 1));
    }
}

/// A source that goes wrong at `i` denotes the error found there.
pub proof fn lemma_misfit_found(source: Seq<char>, i: int)
    requires
        misfit_at(source, i),
    ensures
        ook_tokens(source) == Err::<Seq<Token>, LexError>(
            LexError::UnexpectedCharacter {
                got: source[i],
                expected: expected_at(position(source, i)),
            },
        ),
{
    let found = choose|j: int| misfit_at(source, j);
    lemma_misfit_unique(source, found, i);
}

/// Reads a mark: `Some` for `.`, `?` and `!`, `None` for anything else.
pub fn read_mark(c: char) -> (mark: Option<Mark>)
    ensures
        mark == if is_mark(c) {
            Some(mark_of(c))
        } else {
            None
        },
{
    match c {
        '.' => Some(Mark::Period),
        '?' => Some(Mark::Question),
        '!' => Some(Mark::Bang),
        _ => None,
    }
}

/// The instruction that two words spell.
pub fn token_for(first: Mark, second: Mark) -> (token: Token)
    ensures
        token == pair_token(first, second),
{
    match (first, second) {
        (Mark::Period, Mark::Question) => Token::Right,
        (Mark::Question, Mark::Period) => Token::Left,
        (Mark::Period, Mark::Period) => Token::Incr,
        (Mark::Bang, Mark::Bang) => Token::Decr,
        (Mark::Bang, Mark::Period) => Token::Out,
        (Mark::Period, Mark::Bang) => Token::In,
        (Mark::Bang, Mark::Question) => Token::Begin,
        (Mark::Question, Mark::Bang) => Token::End,
        (Mark::Question, Mark::Question) => Token::Exit,
    }
}

/// What a word calls for once `word_head` of its characters have been
/// read.
pub fn expected_in(word_head: u8) -> (expected: Expected)
    ensures
        expected == expected_at(word_head as int),
{
    match word_head % 4 {
        0 => Expected::UpperO,
        1 => Expected::LowerO,
        2 => Expected::LowerK,
        _ => Expected::Punctuation,
    }
}

/// Whether `c` is what `expected` calls for.
pub fn suits(c: char, expected: Expected) -> (yes: bool)
    ensures
        yes == fits(c, expected),
{
    match expected {
        Expected::UpperO => c == 'O',
        Expected::LowerO => c == 'o',
        Expected::LowerK => c == 'k',
        Expected::Punctuation => read_mark(c).is_some(),
    }
}

/// Whether `c` is one of the six characters of the language.
pub fn belongs(c: char) -> (yes: bool)
    ensures
        yes == is_ook_char(c),
{
    c == 'O' || c == 'o' || c == 'k' || c == '.' || c == '?' || c == '!'
}

/// Whether `c` is an ASCII letter.
pub fn letter(c: char) -> (yes: bool)
    ensures
        yes == is_letter(c),
{
    (c >= 'a' && c <= 'z') || (c >= 'A' && c <= 'Z')
}

/// Whether `c` may stand where `word_head` characters of a word have been
/// read.
pub fn admits(c: char, word_head: u8) -> (yes: bool)
    ensures
        yes == admitted(c, word_head as int),
{
    if belongs(c) {
        suits(c, expected_in(word_head))
    } else if letter(c) {
        word_head % 4 == 0
    } else {
        true
    }
}

/// The mark of the first word of a pair whose second word is still to
/// come.
pub open spec fn waiting_mark(text: Seq<char>) -> Mark {
    mark_of(text[text.len() - text.len() % 8 + 3])
}

/// Where a character stands in its word decides whether it is admitted.
proof fn lemma_admitted_by_head(c: char, position: int, word_head: int)
    requires
        0 <= position,
        word_head == position % 4,
    ensures
        admitted(c, position) == admitted(c, word_head),
        expected_at(position) == expected_at(word_head),
{
}

/// One more admitted character keeps a source admitted.
proof fn lemma_admitted_next(source: Seq<char>, i: int)
    requires
        0 <= i < source.len(),
        admitted_before(source, i),
        admitted(source[i], position(source, i)),
    ensures
        admitted_before(source, i + 1),
{
}

/// What a character of the language that is in its place adds to a text:
/// a letter goes on with the word, a mark ends it, and the mark that ends
/// the second word of a pair adds the instruction of the pair.
proof fn lemma_word_grows(text: Seq<char>, c: char)
    requires
        is_ook_char(c),
        fits(c, expected_at(text.len() as int)),
    ensures
        is_mark(c) <==> text.len() % 4 == 3,
        text.len() % 8 != 7 ==> pairs(text.push(c)) == pairs(text),
        text.len() % 8 == 7 ==> pairs(text.push(c)) == pairs(text).push(
            pair_token(waiting_mark(text), mark_of(c)),
        ),
        text.len() % 8 == 3 ==> waiting_mark(text.push(c)) == mark_of(c),
        4 <= text.len() % 8 < 7 ==> waiting_mark(text.push(c)) == waiting_mark(text),
{
    let n = text.len() as int;
    let grown = text.push(c);
    if n % 8 != 7 {
        assert(pairs(grown) =~= pairs(text));
    } else {
        assert((n + 1) / 8 == n / 8 + 1);
        assert(n - n % 8 + 3 == 8 * (n / 8) + 3);
        assert(pairs(grown) =~= pairs(text).push(pair_token(waiting_mark(text), mark_of(c))));
    }
}

/// Lexes Ook.
///
/// Returns the instructions, or the first thing wrong with the source: a
/// character out of place, a last word cut short, or a last word without
/// a partner.  On an error no instructions are returned.
pub fn ook_parser(plain: &str) -> (result: Result<Vec<Token>, LexError>)
    ensures
        lexed(result) == ook_tokens(plain@),
{
    let mut tokenized: Vec<Token> = Vec::new();
    let mut first_word: Option<Mark> = None;
    let mut word_head: u8 = 0;
    assert(plain@.take(0).filter(|c: char| is_ook_char(c)) =~= Seq::<char>::empty()) by {
        reveal(Seq::filter);
    }
    for c in it: plain.chars()
        invariant
            it.seq() == plain@,
            admitted_before(plain@, it.index() as int),
            word_head as int == position(plain@, it.index() as int) % 4,
            tokenized@ == pairs(ook_chars(plain@.take(it.index() as int))),
            first_word is Some <==> position(plain@, it.index() as int) % 8 >= 4,
            first_word matches Some(first) ==> first == waiting_mark(
                ook_chars(plain@.take(it.index() as int)),
            ),
    {
        let ghost i = it.index() as int;
        let ghost text = ook_chars(plain@.take(i));
        proof {
            lemma_filter_take_next(plain@, |c: char| is_ook_char(c), i);
            lemma_admitted_by_head(c, position(plain@, i), word_head as int);
        }
        if !admits(c, word_head) {
            proof {
                lemma_misfit_found(plain@, i);
            }
            return Err(LexError::UnexpectedCharacter { got: c, expected: expected_in(word_head) });
        }
        proof {
            lemma_admitted_next(plain@, i);
        }
        if belongs(c) {
            proof {
                lemma_word_grows(text, c);
            }
            match read_mark(c) {
                None => {
                    word_head = word_head + 1;
                },
                Some(mark) => {
                    word_head = 0;
                    match first_word {
                        None => {
                            first_word = Some(mark);
                        },
                        Some(first) => {
                            tokenized.push(token_for(first, mark));
                            first_word = None;
                        },
                    }
                },
            }
        }
    }
    proof {
        assert(plain@.take(plain@.len() as int) =~= plain@);
        lemma_admitted_has_no_misfit(plain@);
    }
    if word_head != 0 {
        return Err(LexError::TruncatedWord);
    }
    if first_word.is_some() {
        return Err(LexError::UnpairedWord);
    }
    Ok(tokenized)
}

/// Where a character from outside the language is put into a source, the
/// characters of the language before every index stay as many as they
/// were.
proof fn lemma_insert_position(source: Seq<char>, at: int, c: char, j: int)
    requires
        0 <= at <= source.len(),
        !is_ook_char(c),
        0 <= j <= source.len(),
    ensures
        j <= at ==> position(source.insert(at, c), j) == position(source, j),
        j >= at ==> position(source.insert(at, c), j + 1) == position(source, j),
{
    let longer = source.insert(at, c);
    if j <= at {
        assert(longer.take(j) =~= source.take(j));
    }
    if j >= at {
        assert(longer.take(j + 1) =~= source.take(j).insert(at, c));
        lemma_filter_insert_rejected(source.take(j), |c: char| is_ook_char(c), at, c);
    }
}

/// A skipped character put into a source leaves admitted what was
/// admitted, and nothing else.
proof fn lemma_insert_admitted(source: Seq<char>, at: int, c: char, k: int)
    requires
        0 <= at <= source.len(),
        !is_ook_char(c),
        is_letter(c) ==> position(source, at) % 4 == 0,
        0 <= k <= source.len(),
    ensures
        k <= at ==> (admitted_before(source.insert(at, c), k) <==> admitted_before(source, k)),
        k >= at ==> (admitted_before(source.insert(at, c), k + 1) <==> admitted_before(
            source,
            k,
        )),
{
    let longer = source.insert(at, c);
    if k <= at {
        if admitted_before(source, k) {
            assert forall|j: int| 0 <= j < k implies admitted(
                longer[j],
                #[trigger] position(longer, j),
            ) by {
                lemma_insert_position(source, at, c, j);
                assert(admitted(source[j], position(source, j)));
            }
        }
        if admitted_before(longer, k) {
            assert forall|j: int| 0 <= j < k implies admitted(
                source[j],
                #[trigger] position(source, j),
            ) by {
                lemma_insert_position(source, at, c, j);
                assert(admitted(longer[j], position(longer, j)));
            }
        }
    }
    if k >= at {
        if admitted_before(source, k) {
            assert forall|j: int| 0 <= j < k + 1 implies admitted(
                longer[j],
                #[trigger] position(longer, j),
            ) by {
                if j < at {
                    lemma_insert_position(source, at, c, j);
                    assert(admitted(source[j], position(source, j)));
                } else if j > at {
                    lemma_insert_position(source, at, c, j - 1);
                    assert(admitted(source[j - 1], position(source, j - 1)));
                } else {
                    lemma_insert_position(source, at, c, at);
                }
            }
        }
        if admitted_before(longer, k + 1) {
            assert forall|j: int| 0 <= j < k implies admitted(
                source[j],
                #[trigger] position(source, j),
            ) by {
                lemma_insert_position(source, at, c, j);
                if j < at {
                    assert(admitted(longer[j], position(longer, j)));
                } else {
                    assert(admitted(longer[j + 1], position(longer, j + 1)));
                }
            }
        }
    }
}

/// A character that is skipped where it stands does not change what a
/// source denotes.  Any character from outside the language may be put
/// between two words, before the first and behind the last; one that is
/// not a letter may be put anywhere, also into the middle of a word.
pub proof fn lemma_skipped_character_changes_nothing(source: Seq<char>, at: int, c: char)
    requires
        0 <= at <= source.len(),
        !is_ook_char(c),
        is_letter(c) ==> position(source, at) % 4 == 0,
    ensures
        ook_tokens(source.insert(at, c)) == ook_tokens(source),
{
    let longer = source.insert(at, c);
    if exists|m: int| misfit_at(source, m) {
        let m = choose|m: int| misfit_at(source, m);
        let shifted = if m < at {
            m
        } else {
            m + 1
        };
        lemma_insert_admitted(source, at, c, m);
        lemma_insert_position(source, at, c, m);
        assert(longer[shifted] == source[m]);
        assert(misfit_at(longer, shifted));
        lemma_misfit_found(longer, shifted);
        lemma_misfit_found(source, m);
    } else {
        lemma_no_misfit_is_admitted(source, source.len() as int);
        lemma_insert_admitted(source, at, c, source.len() as int);
        lemma_admitted_has_no_misfit(longer);
        lemma_filter_insert_rejected(source, |c: char| is_ook_char(c), at, c);
    }
}

/// Before the first word every character from outside the language is
/// skipped.
pub proof fn lemma_leading_character_changes_nothing(source: Seq<char>, c: char)
    requires
        !is_ook_char(c),
    ensures
        ook_tokens(source.insert(0, c)) == ook_tokens(source),
{
    assert(source.take(0).filter(|c: char| is_ook_char(c)) =~= Seq::<char>::empty()) by {
        reveal(Seq::filter);
    }
    lemma_skipped_character_changes_nothing(source, 0, c);
}

/// Right behind a mark that is in its place no word is in progress, so
/// every character from outside the language is skipped there.
pub proof fn lemma_no_word_in_progress_behind_mark(source: Seq<char>, at: int)
    requires
        0 < at <= source.len(),
        admitted_before(source, at),
        is_mark(source[at - 1]),
    ensures
        position(source, at) % 4 == 0,
{
    lemma_filter_take_next(source, |c: char| is_ook_char(c), at - 1);
    assert(admitted(source[at - 1], position(source, at - 1)));
}

/// What is left of a source when all but the characters of the language
/// is removed consists of such characters, and each stands at the position
/// that is its index.
proof fn lemma_text_positions(source: Seq<char>, k: int)
    requires
        0 <= k <= ook_chars(source).len(),
    ensures
        position(ook_chars(source), k) == k,
        forall|i: int| 0 <= i < ook_chars(source).len() ==> is_ook_char(ook_chars(source)[i]),
{
    let keep = |c: char| is_ook_char(c);
    let text = ook_chars(source);
    assert forall|i: int| 0 <= i < text.len() implies is_ook_char(text[i]) by {
        source.lemma_filter_pred(keep, i);
    }
    assert forall|i: int| 0 <= i < text.take(k).len() implies keep(#[trigger] text.take(k)[i]) by {
        assert(text.take(k)[i] == text[i]);
    }
    lemma_filter_keeps_all(text.take(k), keep);
}

/// As far as a source is admitted, so far is what is left of it when all
/// but the characters of the language is removed.
proof fn lemma_text_admitted(source: Seq<char>, i: int)
    requires
        0 <= i <= source.len(),
        admitted_before(source, i),
    ensures
        position(source, i) <= ook_chars(source).len(),
        admitted_before(ook_chars(source), position(source, i)),
    decreases i,
{
    let keep = |c: char| is_ook_char(c);
    let text = ook_chars(source);
    lemma_filter_split(source, keep, i);
    if i == 0 {
        assert(source.take(0).filter(keep) =~= Seq::<char>::empty()) by {
            reveal(Seq::filter);
        }
    } else {
        let p = position(source, i - 1);
        lemma_text_admitted(source, i - 1);
        lemma_filter_take_next(source, keep, i - 1);
        assert(admitted(source[i - 1], position(source, i - 1)));
        if is_ook_char(source[i - 1]) {
            assert(text[p] == ook_chars(source.take(i))[p]);
            lemma_text_positions(source, p);
            assert forall|j: int| 0 <= j < p + 1 implies admitted(
                text[j],
                #[trigger] position(text, j),
            ) by {}
        }
    }
}

/// Characters outside the language do not matter, unless one of them is
/// a letter inside a word: a source that is not rejected for such a letter
/// denotes the same as the characters of the language in it alone, be it a
/// program or an error.
pub proof fn lemma_ook_ignores_other_characters(source: Seq<char>)
    requires
        !stray_letter(source),
    ensures
        ook_tokens(ook_chars(source)) == ook_tokens(source),
{
    let keep = |c: char| is_ook_char(c);
    let text = ook_chars(source);
    lemma_filter_idempotent(source, keep);
    if exists|m: int| misfit_at(source, m) {
        let m = choose|m: int| misfit_at(source, m);
        let p = position(source, m);
        assert(is_ook_char(source[m]));
        lemma_text_admitted(source, m);
        lemma_filter_take_next(source, keep, m);
        lemma_filter_split(source, keep, m + 1);
        assert(text[p] == ook_chars(source.take(m + 1))[p]);
        lemma_text_positions(source, p);
        assert(misfit_at(text, p));
        lemma_misfit_found(text, p);
        lemma_misfit_found(source, m);
    } else {
        lemma_no_misfit_is_admitted(source, source.len() as int);
        lemma_text_admitted(source, source.len() as int);
        assert(source.take(source.len() as int) =~= source);
        lemma_admitted_has_no_misfit(text);
    }
}

} // verus!
