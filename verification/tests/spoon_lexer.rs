use esolang::spoon::spoon_parser;
use esolang::token::Token;

#[test]
fn spoon_single_one_is_incr() {
    assert_eq!(spoon_parser("1"), vec![Token::Incr]);
}

#[test]
fn spoon_second_and_third_bit_choose_right_left_decr() {
    assert_eq!(spoon_parser("010"), vec![Token::Right]);
    assert_eq!(spoon_parser("011"), vec![Token::Left]);
    assert_eq!(spoon_parser("000"), vec![Token::Decr]);
}

#[test]
fn spoon_longer_code_words() {
    assert_eq!(spoon_parser("0011"), vec![Token::End]);
    assert_eq!(spoon_parser("00100"), vec![Token::Begin]);
    assert_eq!(spoon_parser("001010"), vec![Token::Out]);
    assert_eq!(spoon_parser("0010110"), vec![Token::In]);
    assert_eq!(spoon_parser("00101110"), vec![Token::Print]);
    assert_eq!(spoon_parser("00101111"), vec![Token::Exit]);
}

#[test]
fn spoon_leading_one_is_a_word_of_its_own() {
    assert_eq!(spoon_parser("10"), vec![Token::Incr]);
    assert_eq!(spoon_parser("11"), vec![Token::Incr, Token::Incr]);
    assert_eq!(spoon_parser("1010"), vec![Token::Incr, Token::Right]);
}

#[test]
fn spoon_bits_that_complete_no_word_are_dropped() {
    assert_eq!(spoon_parser("0"), Vec::<Token>::new());
    assert_eq!(spoon_parser("00"), Vec::<Token>::new());
    assert_eq!(spoon_parser("01"), Vec::<Token>::new());
    assert_eq!(spoon_parser("0010111"), Vec::<Token>::new());
    assert_eq!(spoon_parser("1001"), vec![Token::Incr]);
}

#[test]
fn spoon_reads_words_one_after_another() {
    assert_eq!(
        spoon_parser("11001010000001111"),
        vec![Token::Incr, Token::Incr, Token::Out, Token::Decr, Token::End, Token::Incr, Token::Incr]
    );
    assert_eq!(
        spoon_parser("00101100010100010111100101110"),
        vec![Token::In, Token::Out, Token::Exit, Token::Print]
    );
}

#[test]
fn spoon_skips_everything_but_bits() {
    let plain = spoon_parser("1101000100");
    assert_eq!(plain, vec![Token::Incr, Token::Incr, Token::Right, Token::Begin]);
    assert_eq!(spoon_parser("1 1 010 00100"), plain);
    assert_eq!(spoon_parser("11 0\n1 0 // begin: 0 0 1 0 0"), plain);
    assert_eq!(spoon_parser("one1 1two0 1 0 0x0y1z0!0?"), plain);
}

#[test]
fn spoon_empty_and_foreign_text_is_the_empty_program() {
    assert_eq!(spoon_parser(""), Vec::<Token>::new());
    assert_eq!(spoon_parser("Ook. ++[-] 23456789"), Vec::<Token>::new());
}
