use esolang::error::LexError;
use esolang::lexer::lex;
use esolang::token::{Language, Token};

#[test]
fn default_language_is_brainfuck() {
    assert_eq!(Language::default(), Language::Brainfuck);
}

#[test]
fn lex_reads_each_language_with_its_own_lexer() {
    assert_eq!(lex(Language::Brainfuck, "+."), Ok(vec![Token::Incr, Token::Out]));
    assert_eq!(lex(Language::Ook, "Ook. Ook. Ook! Ook."), Ok(vec![Token::Incr, Token::Out]));
    assert_eq!(lex(Language::Spoon, "1001010"), Ok(vec![Token::Incr, Token::Out]));
}

#[test]
fn lex_skips_what_the_language_does_not_use() {
    assert_eq!(lex(Language::Brainfuck, "Ook 01 + 10"), Ok(vec![Token::Incr]));
    assert_eq!(lex(Language::Ook, "[+] 01 Ook. 10 Ook. [-]"), Ok(vec![Token::Incr]));
    assert_eq!(lex(Language::Spoon, "+ Ook. 1 Ook? -"), Ok(vec![Token::Incr]));
}

#[test]
fn lex_fails_only_for_ook() {
    assert_eq!(lex(Language::Ook, "Ook"), Err(LexError::TruncatedWord));
    assert_eq!(lex(Language::Ook, "Ook!"), Err(LexError::UnpairedWord));
    assert_eq!(lex(Language::Brainfuck, "Ook"), Ok(Vec::new()));
    assert_eq!(lex(Language::Spoon, "Ook"), Ok(Vec::new()));
}
