//! The Spoon front end: instructions are written in a prefix code over the
//! characters `0` and `1`.

use vstd::prelude::*;
use crate::strip::{lemma_filter_idempotent, lemma_filter_skip_next};
use crate::token::Token;

verus! {

/// Whether `c` is one of the two bit characters.
pub open spec fn is_bit(c: char) -> bool {
    c == '0' || c == '1'
}

/// The bit characters of `source`, in order.
pub open spec fn bits(source: Seq<char>) -> Seq<char> {
    source.filter(|c: char| is_bit(c))
}

/// The code word of an instruction.  No code word begins another, and
/// every long enough run of bits begins with one.
pub open spec fn code(token: Token) -> Seq<char> {
    match token {
        Token::Incr => seq!['1'],
        Token::Decr => seq!['0', '0', '0'],
        Token::Right => seq!['0', '1', '0'],
        Token::Left => seq!['0', '1', '1'],
        Token::End => seq!['0', '0', '1', '1'],
        Token::Begin => seq!['0', '0', '1', '0', '0'],
        Token::Out => seq!['0', '0', '1', '0', '1', '0'],
        Token::In => seq!['0', '0', '1', '0', '1', '1', '0'],
        Token::Print => seq!['0', '0', '1', '0', '1', '1', '1', '0'],
        Token::Exit => seq!['0', '0', '1', '0', '1', '1', '1', '1'],
    }
}

/// The instruction whose code word `text` begins with, if it begins with
/// one.
pub open spec fn leading_token(text: Seq<char>) -> Option<Token> {
    if code(Token::Incr).is_prefix_of(text) {
        Some(Token::Incr)
    } else if code(Token::Decr).is_prefix_of(text) {
        Some(Token::Decr)
    } else if code(Token::Right).is_prefix_of(text) {
        Some(Token::Right)
    } else if code(Token::Left).is_prefix_of(text) {
        Some(Token::Left)
    } else if code(Token::End).is_prefix_of(text) {
        Some(Token::End)
    } else if code(Token::Begin).is_prefix_of(text) {
        Some(Token::Begin)
    } else if code(Token::Out).is_prefix_of(text) {
        Some(Token::Out)
    } else if code(Token::In).is_prefix_of(text) {
        Some(Token::In)
    } else if code(Token::Print).is_prefix_of(text) {
        Some(Token::Print)
    } else if code(Token::Exit).is_prefix_of(text) {
        Some(Token::Exit)
    } else {
        None
    }
}

/// The instructions a run of bits spells: one code word after another,
/// until what is left begins with none.  Bits at the end that do not
/// complete a code word spell nothing.
pub open spec fn decode(text: Seq<char>) -> Seq<Token>
    decreases text.len(),
{
    match leading_token(text) {
        Some(token) => seq![token] + decode(text.skip(code(token).len() as int)),
        None => Seq::empty(),
    }
}

/// The program a Spoon source denotes: what its bits spell.
pub open spec fn spoon_tokens(source: Seq<char>) -> Seq<Token> {
    decode(bits(source))
}

/// Whether `text` has at least `word.len()` characters and they are those
/// of `word`, told character by character.
spec fn begins(text: Seq<char>, word: Seq<char>) -> bool {
    word.len() <= text.len() && forall|i: int| 0 <= i < word.len() ==> text[i] == word[i]
}

proof fn lemma_begins(text: Seq<char>, word: Seq<char>)
    ensures
        word.is_prefix_of(text) <==> begins(text, word),
{
    if word.is_prefix_of(text) {
        text.lemma_prefix_index_eq(word);
    }
}

/// For every code word, to begin a text is to agree with it character by
/// character.
proof fn lemma_begins_with_code(text: Seq<char>)
    ensures
        forall|token: Token| #[trigger]
            code(token).is_prefix_of(text) <==> begins(text, code(token)),
{
    assert forall|token: Token| #[trigger]
        code(token).is_prefix_of(text) <==> begins(text, code(token)) by {
        lemma_begins(text, code(token));
    }
}

/// No code word begins another: a text begins with at most one of them.
pub proof fn lemma_code_is_prefix_free(first: Token, second: Token, text: Seq<char>)
    requires
        code(first).is_prefix_of(text),
        code(second).is_prefix_of(text),
    ensures
        first == second,
{
    let a = code(first);
    let b = code(second);
    lemma_begins(text, a);
    lemma_begins(text, b);
    assert(text[0] == a[0]);
    assert(a.len() > 2 ==> text[1] == a[1] && text[2] == a[2]);
    assert(a.len() > 3 && b.len() > 3 ==> text[3] == a[3]);
    assert(a.len() > 4 && b.len() > 4 ==> text[4] == a[4]);
    assert(a.len() > 5 && b.len() > 5 ==> text[5] == a[5]);
    assert(a.len() > 6 && b.len() > 6 ==> text[6] == a[6]);
    assert(a.len() > 7 && b.len() > 7 ==> text[7] == a[7]);
}

/// [`leading_token`] finds the one code word a text begins with, so the
/// order in which it tries them is of no account.
pub proof fn lemma_leading_token(text: Seq<char>, token: Token)
    ensures
        leading_token(text) == Some(token) <==> code(token).is_prefix_of(text),
{
    if code(token).is_prefix_of(text) {
        match leading_token(text) {
            Some(found) => {
                lemma_code_is_prefix_free(found, token, text);
            },
            None => {},
        }
    }
}

/// Eight bits always hold a code word, so fewer than eight bits are left
/// over at the end of a source.
pub proof fn lemma_eight_bits_hold_a_code_word(text: Seq<char>)
    requires
        text.len() >= 8,
        forall|i: int| 0 <= i < 8 ==> is_bit(#[trigger] text[i]),
    ensures
        leading_token(text) is Some,
{
    lemma_begins_with_code(text);
    assert(is_bit(text[0]) && is_bit(text[1]) && is_bit(text[2]) && is_bit(text[3]));
    assert(is_bit(text[4]) && is_bit(text[5]) && is_bit(text[6]) && is_bit(text[7]));
}

/// The bits that can be pending between two characters: the beginnings
/// of code words that are not yet a code word.
spec fn is_stem(pending: Seq<char>) -> bool {
    ||| pending =~= Seq::empty()
    ||| pending =~= seq!['0']
    ||| pending =~= seq!['0', '0']
    ||| pending =~= seq!['0', '1']
    ||| pending =~= seq!['0', '0', '1']
    ||| pending =~= seq!['0', '0', '1', '0']
    ||| pending =~= seq!['0', '0', '1', '0', '1']
    ||| pending =~= seq!['0', '0', '1', '0', '1', '1']
    ||| pending =~= seq!['0', '0', '1', '0', '1', '1', '1']
}

/// Pending bits alone spell nothing.
proof fn lemma_stem_spells_nothing(pending: Seq<char>)
    requires
        is_stem(pending),
    ensures
        decode(pending) == Seq::<Token>::empty(),
{
    lemma_begins_with_code(pending);
    assert(pending.len() > 0 ==> pending[0] == '0');
    assert(pending.len() > 2 ==> pending[1] == '0' && pending[2] == '1');
    assert(pending.len() > 3 ==> pending[3] == '0');
    assert(pending.len() > 4 ==> pending[4] == '1');
    assert(pending.len() > 5 ==> pending[5] == '1');
    assert(pending.len() > 6 ==> pending[6] == '1');
    assert(leading_token(pending) is None);
}

/// A code word followed by more bits spells its instruction, and then
/// what the other bits spell.
proof fn lemma_code_leads(token: Token, rest: Seq<char>)
    ensures
        decode(code(token) + rest) == seq![token] + decode(rest),
{
    let word = code(token);
    let text = word + rest;
    lemma_begins_with_code(text);
    assert(text[0] == word[0]);
    assert(word.len() > 2 ==> text[1] == word[1] && text[2] == word[2]);
    assert(word.len() > 3 ==> text[3] == word[3]);
    assert(word.len() > 4 ==> text[4] == word[4]);
    assert(word.len() > 5 ==> text[5] == word[5]);
    assert(word.len() > 6 ==> text[6] == word[6]);
    assert(word.len() > 7 ==> text[7] == word[7]);
    assert(begins(text, word));
    assert(leading_token(text) == Some(token));
    assert(text.skip(word.len() as int) =~= rest);
}

/// Looks at the word in progress, whose newest bit stands at `word_head`,
/// and tells which instruction that bit completes, if any.
fn word_token(word: &[char; 8], word_head: usize) -> (token: Option<Token>)
    requires
        word_head < 8,
        is_stem(word@.take(word_head as int)),
        is_bit(word[word_head as int]),
    ensures
        match token {
            Some(token) => word@.take(word_head + 1) == code(token),
            None => word_head < 7 && is_stem(word@.take(word_head + 1)),
        },
{
    let ghost pending = word@.take(word_head as int);
    let ghost grown = word@.take(word_head + 1);
    assert(grown =~= pending.push(word[word_head as int]));
    assert(forall|i: int| 0 <= i < word_head ==> pending[i] == word[i]);
    let token = match word_head {
        0 => if word[0] == '1' {
            Some(Token::Incr)
        } else {
            None
        },
        2 => if word[1] == '1' && word[2] == '0' {
            Some(Token::Right)
        } else if word[1] == '1' && word[2] == '1' {
            Some(Token::Left)
        } else if word[1] == '0' && word[2] == '0' {
            Some(Token::Decr)
        } else {
            None
        },
        3 => if word[3] == '1' {
            Some(Token::End)
        } else {
            None
        },
        4 => if word[4] == '0' {
            Some(Token::Begin)
        } else {
            None
        },
        5 => if word[5] == '0' {
            Some(Token::Out)
        } else {
            None
        },
        6 => if word[6] == '0' {
            Some(Token::In)
        } else {
            None
        },
        7 => if word[7] == '0' {
            Some(Token::Print)
        } else if word[7] == '1' {
            Some(Token::Exit)
        } else {
            None
        },
        _ => None,
    };
    proof {
        match token {
            Some(token) => {
                assert(grown =~= code(token));
            },
            None => {},
        }
    }
    token
}

/// Lexes Spoon.  Every character that is not a bit is skipped, and bits
/// at the end that complete no code word are dropped, so this lexer
/// accepts any text.
///
/// The bits of the word in progress are kept in a buffer of eight.  The
/// eighth bit of a word always completes `Print` or `Exit`, so the buffer
/// is never outgrown.
pub fn spoon_parser(plain: &str) -> (tokenized: Vec<Token>)
    ensures
        tokenized@ == spoon_tokens(plain@),
{
    let mut tokenized: Vec<Token> = Vec::new();
    let mut word: [char; 8] = ['0'; 8];
    let mut word_head: usize = 0;
    assert(word@.take(0) + bits(plain@.skip(0)) =~= bits(plain@)) by {
        assert(plain@.skip(0) =~= plain@);
    }
    for c in it: plain.chars()
        invariant
            it.seq() == plain@,
            word_head < 8,
            is_stem(word@.take(word_head as int)),
            decode(bits(plain@)) == tokenized@ + decode(
                word@.take(word_head as int) + bits(plain@.skip(it.index() as int)),
            ),
    {
        let ghost pending = word@.take(word_head as int);
        let ghost rest = bits(plain@.skip(it.index() + 1));
        proof {
            lemma_filter_skip_next(plain@, |c: char| is_bit(c), it.index() as int);
        }
        if c == '0' || c == '1' {
            word[word_head] = c;
            proof {
                assert(word@.take(word_head as int) =~= pending);
                assert(word@.take(word_head + 1) =~= pending.push(c));
                assert(pending + (seq![c] + rest) =~= pending.push(c) + rest);
            }
            match word_token(&word, word_head) {
                Some(token) => {
                    proof {
                        lemma_code_leads(token, rest);
                        assert(word@.take(0) + rest =~= rest);
                    }
                    tokenized.push(token);
                    word_head = 0;
                },
                None => {
                    word_head = word_head + 1;
                },
            }
        }
    }
    proof {
        let pending = word@.take(word_head as int);
        assert(plain@.skip(plain@.len() as int) =~= Seq::<char>::empty());
        assert(bits(Seq::<char>::empty()) =~= Seq::<char>::empty()) by {
            reveal(Seq::filter);
        }
        assert(pending + Seq::<char>::empty() =~= pending);
        lemma_stem_spells_nothing(pending);
    }
    tokenized
}

/// Characters that are not bits never matter: a source and the same source
/// with all of them removed denote the same program.
pub proof fn lemma_spoon_ignores_other_characters(source: Seq<char>)
    ensures
        spoon_tokens(bits(source)) == spoon_tokens(source),
{
    lemma_filter_idempotent(source, |c: char| is_bit(c));
}

} // verus!
