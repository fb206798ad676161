use esolang::brainfuck::{brainfuck_parser, command_of};
use esolang::token::Token;

#[test]
fn every_command_character_maps_to_its_instruction() {
    assert_eq!(
        brainfuck_parser("><+-.,[]"),
        vec![
            Token::Right,
            Token::Left,
            Token::Incr,
            Token::Decr,
            Token::Out,
            Token::In,
            Token::Begin,
            Token::End,
        ]
    );
}

#[test]
fn brainfuck_skips_everything_else() {
    assert_eq!(
        brainfuck_parser("add two: + +\n then print .  # done"),
        brainfuck_parser("++.")
    );
    assert_eq!(brainfuck_parser("++."), vec![Token::Incr, Token::Incr, Token::Out]);
}

#[test]
fn brainfuck_accepts_empty_and_foreign_text() {
    assert_eq!(brainfuck_parser(""), Vec::<Token>::new());
    assert_eq!(brainfuck_parser("Ook! 0101 héllo"), Vec::<Token>::new());
}

#[test]
fn command_of_tells_commands_from_other_characters() {
    assert_eq!(command_of('['), Some(Token::Begin));
    assert_eq!(command_of(']'), Some(Token::End));
    assert_eq!(command_of('x'), None);
    assert_eq!(command_of(' '), None);
}
