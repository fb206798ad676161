//! Laws of the machine, proved from the semantics.

use vstd::prelude::*;
use crate::semantics::{
    lemma_next_end, lemma_prev_begin, lemma_run_final, lemma_run_valid, lemma_start_valid,
    next_end, prev_begin, run, start, step, stopped, ExecStatus, MachineState,
};
use crate::strip::{lemma_filter_split, lemma_filter_take_next};
use crate::tape::{TapeState, MEMORY_SIZE};
use crate::token::Token;

verus! {

/// Output is only ever appended to, and input is only ever read onwards:
/// however long a machine runs, what it had written before stays the
/// beginning of its output, and it has read no fewer bytes than before.
pub proof fn lemma_output_only_grows(
    program: Seq<Token>,
    input: Seq<u8>,
    state: MachineState,
    steps: nat,
)
    ensures
        state.output.is_prefix_of(run(program, input, state, steps).output),
        state.consumed <= run(program, input, state, steps).consumed,
    decreases steps,
{
    if steps > 0 {
        lemma_output_only_grows(program, input, state, (steps - 1) as nat);
        let before = run(program, input, state, (steps - 1) as nat);
        let after = step(program, input, before);
        assert(before.output.is_prefix_of(after.output));
    }
}

/// The program that adds one to the first cell `n` times and then writes
/// it.
pub open spec fn counting_program(n: nat) -> Seq<Token> {
    Seq::new(n, |i: int| Token::Incr).push(Token::Out)
}

/// The state of the counting program after `k` of its increments.
spec fn counted(k: nat) -> MachineState {
    MachineState {
        tape: TapeState::blank().with_current((k % 256) as u8),
        program_head: k as int,
        consumed: 0,
        output: Seq::empty(),
        status: ExecStatus::Running,
    }
}

/// After `k` of its increments the counting program has counted to `k`.
proof fn lemma_counting(n: nat, input: Seq<u8>, k: nat)
    requires
        k <= n,
    ensures
        run(counting_program(n), input, start(counting_program(n)), k) == counted(k),
    decreases k,
{
    let program = counting_program(n);
    if k == 0 {
        assert(TapeState::blank().with_current(0u8).cells =~= TapeState::blank().cells);
    } else {
        lemma_counting(n, input, (k - 1) as nat);
        let before = counted((k - 1) as nat);
        assert(program[k - 1] == Token::Incr);
        assert(before.tape.incremented().cells =~= counted(k).tape.cells);
    }
}

/// A program of `n` increments and one output writes the single byte
/// `n mod 256` and halts, whatever the input, as soon as it is given the
/// `n + 1` steps it takes.
pub proof fn lemma_counting_program_writes_count(n: nat, input: Seq<u8>, steps: nat)
    requires
        steps > n,
    ensures
        run(counting_program(n), input, start(counting_program(n)), steps).output == seq![
            (n % 256) as u8,
        ],
        run(counting_program(n), input, start(counting_program(n)), steps).status
            == ExecStatus::Halted,
{
    let program = counting_program(n);
    lemma_counting(n, input, n);
    let last = run(program, input, start(program), n + 1);
    assert(program[n as int] == Token::Out);
    assert(last.output =~= seq![(n % 256) as u8]);
    lemma_run_final(program, input, start(program), n + 1, steps);
}

/// An `Exit` ends the run: the machine halts on it with its tape and its
/// output as they were, and however many more steps it is given, it
/// executes nothing else.
pub proof fn lemma_exit_is_final(
    program: Seq<Token>,
    input: Seq<u8>,
    state: MachineState,
    steps: nat,
)
    requires
        state.status == ExecStatus::Running,
        0 <= state.program_head < program.len(),
        program[state.program_head] == Token::Exit,
        steps >= 1,
    ensures
        run(program, input, state, steps) == stopped(state, ExecStatus::Halted),
{
    assert(run(program, input, state, 1) == step(program, input, run(program, input, state, 0)));
    lemma_run_final(program, input, state, 1, steps);
}

/// Lengthening a program keeps every `End` that was found in it; a search
/// that failed can afterwards succeed only in what was added.
proof fn lemma_next_end_extended(short: Seq<Token>, rest: Seq<Token>, from: int)
    requires
        0 <= from <= short.len(),
    ensures
        next_end(short, from) < short.len() ==> next_end(short + rest, from) == next_end(
            short,
            from,
        ),
        next_end(short, from) == short.len() ==> next_end(short + rest, from) >= short.len(),
    decreases short.len() - from,
{
    let long = short + rest;
    if from < short.len() {
        assert(long[from] == short[from]);
        if short[from] != Token::End {
            lemma_next_end_extended(short, rest, from + 1);
        }
    } else {
        lemma_next_end(long, from);
    }
}

/// Lengthening a program changes no search for a `Begin` in it.
proof fn lemma_prev_begin_extended(short: Seq<Token>, rest: Seq<Token>, from: int)
    requires
        -1 <= from < short.len(),
    ensures
        prev_begin(short + rest, from) == prev_begin(short, from),
    decreases from + 1,
{
    if from >= 0 {
        assert((short + rest)[from] == short[from]);
        if short[from] != Token::Begin {
            lemma_prev_begin_extended(short, rest, from - 1);
        }
    }
}

/// What stands behind an `Exit` does not matter, so long as no jump
/// passes over the `Exit`: a run that stays at or before it is the run of
/// the program cut off behind it.
///
/// The condition is needed because loops are matched without regard to
/// nesting: a `Begin` before the `Exit` jumps to the next `End`, even if
/// that one stands behind the `Exit`.
pub proof fn lemma_nothing_behind_exit_matters(
    before: Seq<Token>,
    behind: Seq<Token>,
    input: Seq<u8>,
    steps: nat,
)
    requires
        forall|k: nat|
            k <= steps ==> (#[trigger] run(
                before.push(Token::Exit) + behind,
                input,
                start(before.push(Token::Exit) + behind),
                k,
            )).program_head <= before.len(),
    ensures
        run(
            before.push(Token::Exit) + behind,
            input,
            start(before.push(Token::Exit) + behind),
            steps,
        ) == run(before.push(Token::Exit), input, start(before.push(Token::Exit)), steps),
    decreases steps,
{
    let short = before.push(Token::Exit);
    let long = short + behind;
    let exit = before.len() as int;
    if steps > 0 {
        let fewer = (steps - 1) as nat;
        lemma_nothing_behind_exit_matters(before, behind, input, fewer);
        let state = run(long, input, start(long), fewer);
        lemma_start_valid(short, input);
        lemma_run_valid(short, input, start(short), fewer);
        lemma_start_valid(long, input);
        lemma_run_valid(long, input, start(long), fewer);
        let after = run(long, input, start(long), steps);
        assert(after == step(long, input, state));
        assert(after.program_head <= exit);
        assert(state.program_head <= exit);
        if state.status == ExecStatus::Running {
            let at = state.program_head;
            assert(long[at] == short[at]);
            lemma_next_end_extended(short, behind, at);
            lemma_next_end(short, at);
            lemma_next_end(long, at);
            lemma_prev_begin_extended(short, behind, at);
            lemma_prev_begin(short, at);
            assert(short[exit] == Token::Exit);
        }
    }
}

/// An `In` that finds no input left stops the machine with
/// `InputExhausted`.  The tape and the output stay as they were: no value
/// is put in the cell in place of the missing byte, and nothing more is
/// executed.
pub proof fn lemma_input_exhausted_is_final(
    program: Seq<Token>,
    input: Seq<u8>,
    state: MachineState,
    steps: nat,
)
    requires
        state.status == ExecStatus::Running,
        0 <= state.program_head < program.len(),
        program[state.program_head] == Token::In,
        state.consumed >= input.len(),
        steps >= 1,
    ensures
        run(program, input, state, steps) == stopped(state, ExecStatus::InputExhausted),
{
    assert(run(program, input, state, 1) == step(program, input, run(program, input, state, 0)));
    lemma_run_final(program, input, state, 1, steps);
}

/// Whether `token` is neither a loop marker nor `Exit`, so that the
/// instruction executed after it, if any, is the one behind it.
pub open spec fn is_straight(token: Token) -> bool {
    token != Token::Begin && token != Token::End && token != Token::Exit
}

/// The number of `In` instructions in `program`.
pub open spec fn reads(program: Seq<Token>) -> nat {
    program.filter(|token: Token| token == Token::In).len()
}

/// Where the cursor stands after the moves in `program`, counted from the
/// first cell, if none of them is refused.
pub open spec fn cursor_after(program: Seq<Token>) -> int {
    program.filter(|token: Token| token == Token::Right).len() - program.filter(
        |token: Token| token == Token::Left,
    ).len()
}

/// Whether the moves in `program`, made one after another from the first
/// cell, never leave the tape.
pub open spec fn stays_on_tape(program: Seq<Token>) -> bool {
    forall|k: int|
        0 <= k <= program.len() ==> 0 <= #[trigger] cursor_after(program.take(k)) < MEMORY_SIZE
}

/// A program of straight instructions that stays on the tape executes
/// them one after another until it has none left or an `In` finds no
/// input.
proof fn lemma_straight_run(program: Seq<Token>, input: Seq<u8>, k: nat)
    requires
        forall|i: int| 0 <= i < program.len() ==> is_straight(#[trigger] program[i]),
        stays_on_tape(program),
        k <= program.len(),
    ensures
        ({
            let state = run(program, input, start(program), k);
            ||| state.status == ExecStatus::InputExhausted && reads(program) > input.len()
            ||| state.status == (if k < program.len() {
                ExecStatus::Running
            } else {
                ExecStatus::Halted
            }) && state.program_head == k && state.consumed == reads(program.take(k as int))
                && state.tape.head == cursor_after(program.take(k as int))
        }),
    decreases k,
{
    let only_in = |token: Token| token == Token::In;
    let only_right = |token: Token| token == Token::Right;
    let only_left = |token: Token| token == Token::Left;
    lemma_start_valid(program, input);
    lemma_run_valid(program, input, start(program), k);
    if k == 0 {
        reveal(Seq::filter);
        assert(program.take(0) =~= Seq::<Token>::empty());
    } else {
        let fewer = (k - 1) as nat;
        lemma_straight_run(program, input, fewer);
        lemma_run_valid(program, input, start(program), fewer);
        lemma_filter_take_next(program, only_in, fewer as int);
        lemma_filter_take_next(program, only_right, fewer as int);
        lemma_filter_take_next(program, only_left, fewer as int);
        let state = run(program, input, start(program), fewer);
        if state.status == ExecStatus::Running {
            assert(is_straight(program[fewer as int]));
            assert(0 <= cursor_after(program.take(k as int)) < MEMORY_SIZE);
            if program[fewer as int] == Token::In && state.consumed >= input.len() {
                assert(program.take(k as int).filter(only_in).len() <= reads(program)) by {
                    lemma_filter_split(program, only_in, k as int);
                }
            }
        }
    }
}

/// A program without loop markers and `Exit`, whose moves stay on the
/// tape, and which holds more `In` instructions than there are input
/// bytes, fails with `InputExhausted` once it is given as many steps as it
/// has instructions.
pub proof fn lemma_more_reads_than_input(program: Seq<Token>, input: Seq<u8>, steps: nat)
    requires
        forall|i: int| 0 <= i < program.len() ==> is_straight(#[trigger] program[i]),
        stays_on_tape(program),
        reads(program) > input.len(),
        steps >= program.len(),
    ensures
        run(program, input, start(program), steps).status == ExecStatus::InputExhausted,
{
    let all = program.len();
    lemma_straight_run(program, input, all);
    lemma_start_valid(program, input);
    lemma_run_valid(program, input, start(program), all);
    assert(program.take(all as int) =~= program);
    lemma_run_final(program, input, start(program), all, steps);
}

} // verus!
