use esolang::brainfuck::brainfuck_parser;
use esolang::lexer::lex;
use esolang::machine::{execute, find_begin, find_end, Machine};
use esolang::ook::ook_parser;
use esolang::semantics::ExecStatus;
use esolang::spoon::spoon_parser;
use esolang::tape::MEMORY_SIZE;
use esolang::token::{Language, Token};

const PLENTY: u64 = 1_000_000;

fn brainfuck(source: &str, input: &[u8]) -> (Vec<u8>, ExecStatus) {
    execute(brainfuck_parser(source), input.to_vec(), PLENTY)
}

#[test]
fn two_increments_and_output_write_two() {
    assert_eq!(brainfuck("++.", &[]), (vec![0x02], ExecStatus::Halted));
}

#[test]
fn increments_then_output_write_the_count_modulo_256() {
    for n in [0usize, 1, 2, 100, 255, 256, 257, 300, 511, 512, 1000] {
        let source = "+".repeat(n) + ".";
        assert_eq!(brainfuck(&source, &[]), (vec![(n % 256) as u8], ExecStatus::Halted));
    }
}

#[test]
fn counting_program_needs_one_step_per_instruction() {
    let program = brainfuck_parser("+++.");
    assert_eq!(execute(program.clone(), Vec::new(), 4), (vec![3], ExecStatus::Halted));
    assert_eq!(execute(program.clone(), Vec::new(), 3), (Vec::new(), ExecStatus::Running));
    assert_eq!(execute(program, Vec::new(), 0), (Vec::new(), ExecStatus::Running));
}

#[test]
fn decrement_wraps_below_zero() {
    assert_eq!(brainfuck("-.", &[]), (vec![255], ExecStatus::Halted));
    assert_eq!(brainfuck("+--.", &[]), (vec![255], ExecStatus::Halted));
}

#[test]
fn echo_copies_one_input_byte() {
    assert_eq!(brainfuck(",.", &[0x41]), (vec![0x41], ExecStatus::Halted));
}

#[test]
fn input_is_read_left_to_right() {
    assert_eq!(brainfuck(",.,.,.", b"abc"), (b"abc".to_vec(), ExecStatus::Halted));
    assert_eq!(brainfuck(",>,>,<.<.>>.", b"abc"), (b"bac".to_vec(), ExecStatus::Halted));
}

#[test]
fn unread_input_is_ignored() {
    assert_eq!(brainfuck(",.", b"xyz"), (b"x".to_vec(), ExecStatus::Halted));
}

#[test]
fn reading_past_the_input_fails() {
    assert_eq!(brainfuck(",", &[]), (Vec::new(), ExecStatus::InputExhausted));
    assert_eq!(brainfuck(",.,.", &[7]), (vec![7], ExecStatus::InputExhausted));
    assert_eq!(brainfuck("+++.,.", &[]), (vec![3], ExecStatus::InputExhausted));
}

#[test]
fn failed_read_leaves_the_cell_alone() {
    let mut machine = Machine::new(brainfuck_parser("+++++,."), Vec::new());
    machine.run(PLENTY);
    assert_eq!(machine.status(), ExecStatus::InputExhausted);
    assert_eq!(machine.tape().read(), 5);
    assert_eq!(machine.program_head(), 5);
    assert!(machine.output().is_empty());
}

#[test]
fn exit_stops_the_run() {
    let program = vec![Token::Incr, Token::Out, Token::Exit, Token::Incr, Token::Out, Token::In];
    assert_eq!(execute(program, Vec::new(), PLENTY), (vec![1], ExecStatus::Halted));
}

#[test]
fn exit_makes_what_follows_irrelevant() {
    let before = vec![Token::Incr, Token::Incr, Token::Out, Token::Exit];
    let mut longer = before.clone();
    longer.extend([Token::Out, Token::Print, Token::Left, Token::In, Token::End]);
    assert_eq!(
        execute(longer, Vec::new(), PLENTY),
        execute(before, Vec::new(), PLENTY)
    );
}

#[test]
fn begin_may_jump_over_an_exit() {
    let program = vec![Token::Begin, Token::Exit, Token::End, Token::Out];
    assert_eq!(execute(program, Vec::new(), PLENTY), (vec![0], ExecStatus::Halted));
}

#[test]
fn clear_loop_runs_to_completion() {
    let mut machine = Machine::new(brainfuck_parser("++[-]"), Vec::new());
    machine.run(PLENTY);
    assert_eq!(machine.status(), ExecStatus::Halted);
    assert_eq!(machine.tape().read(), 0);
    assert!(machine.output().is_empty());
    assert_eq!(brainfuck("++[-].", &[]), (vec![0], ExecStatus::Halted));
}

#[test]
fn loop_body_runs_once_per_count() {
    assert_eq!(brainfuck("+++[.-]", &[]), (vec![3, 2, 1], ExecStatus::Halted));
    assert_eq!(brainfuck("+++[>++<-]>.", &[]), (vec![6], ExecStatus::Halted));
}

#[test]
fn loop_on_zero_cell_is_skipped() {
    assert_eq!(brainfuck("[.+]+.", &[]), (vec![1], ExecStatus::Halted));
}

#[test]
fn begin_stops_at_the_first_end_not_the_nested_one() {
    // With nesting taken into account the whole program would be skipped.
    assert_eq!(brainfuck("[[].]", &[]), (vec![0], ExecStatus::Halted));
    assert_eq!(brainfuck("[[+.]+.-]", &[]), (vec![1], ExecStatus::Halted));
}

#[test]
fn end_goes_back_to_the_last_begin_not_the_nested_one() {
    // With nesting taken into account this halts with both cells zero.
    assert_eq!(brainfuck("++[>+[-]<-]", &[]), (Vec::new(), ExecStatus::TapeBoundsViolation));
}

#[test]
fn begin_without_end_halts() {
    assert_eq!(brainfuck("+.-[.+.", &[]), (vec![1], ExecStatus::Halted));
}

#[test]
fn end_without_begin_halts() {
    assert_eq!(brainfuck("+.].", &[]), (vec![1], ExecStatus::Halted));
}

#[test]
fn end_on_zero_cell_without_begin_goes_on() {
    assert_eq!(brainfuck("].", &[]), (vec![0], ExecStatus::Halted));
}

#[test]
fn endless_loop_is_still_running_when_steps_run_out() {
    assert_eq!(
        execute(brainfuck_parser("+[]"), Vec::new(), 10_000),
        (Vec::new(), ExecStatus::Running)
    );
    assert_eq!(
        execute(brainfuck_parser("+[.]"), Vec::new(), 7),
        (vec![1, 1, 1], ExecStatus::Running)
    );
}

#[test]
fn run_can_be_resumed() {
    let mut machine = Machine::new(brainfuck_parser("+.+.+."), Vec::new());
    assert!(machine.is_running());
    machine.run(3);
    assert!(machine.is_running());
    assert_eq!(machine.output(), &vec![1]);
    assert_eq!(machine.program_head(), 3);
    machine.run(2);
    assert_eq!(machine.output(), &vec![1, 2]);
    machine.run(PLENTY);
    assert_eq!(machine.status(), ExecStatus::Halted);
    assert_eq!(machine.into_output(), vec![1, 2, 3]);
}

#[test]
fn step_executes_one_instruction() {
    let mut machine = Machine::new(brainfuck_parser("+>-"), Vec::new());
    machine.step();
    assert_eq!(machine.tape().read(), 1);
    assert_eq!(machine.program_head(), 1);
    machine.step();
    assert_eq!(machine.tape().position(), 1);
    machine.step();
    assert_eq!(machine.tape().read(), 255);
    assert_eq!(machine.status(), ExecStatus::Halted);
    machine.step();
    assert_eq!(machine.status(), ExecStatus::Halted);
    assert_eq!(machine.program_head(), 3);
}

#[test]
fn empty_program_has_halted_at_once() {
    let machine = Machine::new(Vec::new(), vec![1, 2, 3]);
    assert_eq!(machine.status(), ExecStatus::Halted);
    assert_eq!(execute(Vec::new(), Vec::new(), 0), (Vec::new(), ExecStatus::Halted));
}

#[test]
fn moving_left_of_the_tape_is_a_bounds_violation() {
    assert_eq!(brainfuck("+.<.", &[]), (vec![1], ExecStatus::TapeBoundsViolation));
}

#[test]
fn moving_right_of_the_tape_is_a_bounds_violation() {
    let fits = ">".repeat(MEMORY_SIZE - 1) + "+.";
    assert_eq!(brainfuck(&fits, &[]), (vec![1], ExecStatus::Halted));
    let too_far = ">".repeat(MEMORY_SIZE) + "+.";
    assert_eq!(brainfuck(&too_far, &[]), (Vec::new(), ExecStatus::TapeBoundsViolation));
}

#[test]
fn print_writes_the_whole_tape() {
    let program = spoon_parser("1 1 010 1 00101110");
    assert_eq!(
        program,
        vec![Token::Incr, Token::Incr, Token::Right, Token::Incr, Token::Print]
    );
    let (output, status) = execute(program, Vec::new(), PLENTY);
    assert_eq!(status, ExecStatus::Halted);
    assert_eq!(output.len(), MEMORY_SIZE);
    assert_eq!(&output[..3], &[2, 1, 0]);
    assert!(output[3..].iter().all(|byte| *byte == 0));
}

#[test]
fn print_comes_after_earlier_output() {
    let program = vec![Token::Incr, Token::Out, Token::Print, Token::Out];
    let (output, status) = execute(program, Vec::new(), PLENTY);
    assert_eq!(status, ExecStatus::Halted);
    assert_eq!(output.len(), MEMORY_SIZE + 2);
    assert_eq!(&output[..3], &[1, 1, 0]);
    assert_eq!(output[MEMORY_SIZE + 1], 1);
}

#[test]
fn ook_program_runs_like_its_brainfuck_twin() {
    let ook = ook_parser("Ook. Ook! Ook. Ook. Ook! Ook. Ook? Ook? Ook! Ook.").unwrap();
    assert_eq!(ook, vec![Token::In, Token::Incr, Token::Out, Token::Exit, Token::Out]);
    assert_eq!(execute(ook, vec![0x41], PLENTY), (vec![0x42], ExecStatus::Halted));
}

#[test]
fn all_three_languages_echo() {
    for (language, source) in [
        (Language::Brainfuck, ",."),
        (Language::Ook, "Ook. Ook! Ook! Ook."),
        (Language::Spoon, "0010110 001010"),
    ] {
        let program = lex(language, source).unwrap();
        assert_eq!(execute(program, vec![0x41], PLENTY), (vec![0x41], ExecStatus::Halted));
    }
}

#[test]
fn find_end_returns_the_first_end() {
    let program = brainfuck_parser("[[+]-]");
    assert_eq!(find_end(&program, 0), 3);
    assert_eq!(find_end(&program, 3), 3);
    assert_eq!(find_end(&program, 4), 5);
    assert_eq!(find_end(&program, 6), 6);
    assert_eq!(find_end(&brainfuck_parser("[+"), 0), 2);
}

#[test]
fn find_begin_returns_the_last_begin() {
    let program = brainfuck_parser("+[[+]-]");
    assert_eq!(find_begin(&program, 6), Some(2));
    assert_eq!(find_begin(&program, 2), Some(2));
    assert_eq!(find_begin(&program, 1), Some(1));
    assert_eq!(find_begin(&program, 0), None);
    assert_eq!(find_begin(&brainfuck_parser("+]"), 1), None);
}
