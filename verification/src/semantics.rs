//! What running a program means, as mathematics.
//!
//! A machine state holds the tape, the position in the program, how much
//! input has been read, the output so far and whether the machine still
//! runs.  [`step`] executes one instruction; [`run`] executes a given number
//! of them.  Programs need not terminate, so running is always bounded by a
//! number of steps.

use vstd::prelude::*;
use crate::tape::TapeState;
use crate::token::Token;

verus! {

/// Whether a machine still runs, and if not, why it stopped.
#[derive(Debug, Clone, Copy, PartialEq, Eq, Hash, Structural)]
pub enum ExecStatus {
    /// There is a next instruction to execute.
    Running,
    /// The program ended: it ran past its last instruction, executed an
    /// `Exit`, or looked in vain for the other end of a loop.
    Halted,
    /// An `In` found no input byte left.
    InputExhausted,
    /// A `Right` or `Left` would have moved the cursor off the tape.
    TapeBoundsViolation,
}

/// The state of a machine as a mathematical value.
pub struct MachineState {
    /// The memory.
    pub tape: TapeState,
    /// Index of the next instruction.
    pub program_head: int,
    /// Number of input bytes read so far.
    pub consumed: int,
    /// The bytes written so far.
    pub output: Seq<u8>,
    /// Whether the machine still runs.
    pub status: ExecStatus,
}

/// Index of the first `End` at or behind `from`, or the length of the
/// program if there is none.  Other loop markers on the way are not
/// counted: nesting is not taken into account.
pub open spec fn next_end(program: Seq<Token>, from: int) -> int
    recommends
        0 <= from,
    decreases program.len() - from,
{
    if from >= program.len() {
        program.len() as int
    } else if program[from] == Token::End {
        from
    } else {
        next_end(program, from + 1)
    }
}

/// Index of the last `Begin` at or before `from`, or -1 if there is none.
/// Other loop markers on the way are not counted: nesting is not taken
/// into account.
pub open spec fn prev_begin(program: Seq<Token>, from: int) -> int
    recommends
        from < program.len(),
    decreases from + 1,
{
    if from < 0 {
        -1
    } else if program[from] == Token::Begin {
        from
    } else {
        prev_begin(program, from - 1)
    }
}

/// A state that has run past the last instruction is a halted one.
pub open spec fn settled(program: Seq<Token>, state: MachineState) -> MachineState {
    if state.status == ExecStatus::Running && state.program_head >= program.len() {
        MachineState { status: ExecStatus::Halted, ..state }
    } else {
        state
    }
}

/// The state with `target` as the next instruction.
pub open spec fn jumped(program: Seq<Token>, state: MachineState, target: int) -> MachineState {
    settled(program, MachineState { program_head: target, ..state })
}

/// The state with the instruction behind the current one as the next.
pub open spec fn advanced(program: Seq<Token>, state: MachineState) -> MachineState {
    jumped(program, state, state.program_head + 1)
}

/// The state stopped for the reason `status`, with everything else as it
/// was.
pub open spec fn stopped(state: MachineState, status: ExecStatus) -> MachineState {
    MachineState { status, ..state }
}

/// The state before the first instruction: a blank tape, nothing read,
/// nothing written.  An empty program has halted before it began.
pub open spec fn start(program: Seq<Token>) -> MachineState {
    settled(
        program,
        MachineState {
            tape: TapeState::blank(),
            program_head: 0,
            consumed: 0,
            output: Seq::empty(),
            status: ExecStatus::Running,
        },
    )
}

/// What is true of a state at all times, for a given program and input.
pub open spec fn valid(program: Seq<Token>, input: Seq<u8>, state: MachineState) -> bool {
    &&& state.tape.valid()
    &&& 0 <= state.program_head <= program.len()
    &&& 0 <= state.consumed <= input.len()
    &&& state.status == ExecStatus::Running ==> state.program_head < program.len()
}

/// The state after the next instruction.  A machine that has stopped stays
/// as it is.
///
/// * `Right` and `Left` move the cursor, or stop the machine with
///   `TapeBoundsViolation` where there is no cell to move to.
/// * `Incr` and `Decr` change the current cell by one, modulo 256.
/// * `Out` appends the current cell to the output, `Print` the whole tape.
/// * `In` stores the next input byte in the current cell, or stops the
///   machine with `InputExhausted` if all input has been read.
/// * `Exit` halts.
/// * `Begin` on a zero cell jumps behind the next `End`, and halts if
///   there is none; on another cell it does nothing.
/// * `End` on a non-zero cell jumps back to just behind the last `Begin`
///   before it, and halts if there is none; on a zero cell it does nothing.
pub open spec fn step(program: Seq<Token>, input: Seq<u8>, state: MachineState) -> MachineState {
    if state.status != ExecStatus::Running {
        state
    } else if !(0 <= state.program_head < program.len()) {
        stopped(state, ExecStatus::Halted)
    } else {
        match program[state.program_head] {
            Token::Right => if state.tape.can_move_right() {
                advanced(program, MachineState { tape: state.tape.moved(1), ..state })
            } else {
                stopped(state, ExecStatus::TapeBoundsViolation)
            },
            Token::Left => if state.tape.can_move_left() {
                advanced(program, MachineState { tape: state.tape.moved(-1), ..state })
            } else {
                stopped(state, ExecStatus::TapeBoundsViolation)
            },
            Token::Incr => advanced(
                program,
                MachineState { tape: state.tape.incremented(), ..state },
            ),
            Token::Decr => advanced(
                program,
                MachineState { tape: state.tape.decremented(), ..state },
            ),
            Token::Out => advanced(
                program,
                MachineState { output: state.output.push(state.tape.current()), ..state },
            ),
            Token::In => if state.consumed < input.len() {
                advanced(
                    program,
                    MachineState {
                        tape: state.tape.with_current(input[state.consumed]),
                        consumed: state.consumed + 1,
                        ..state
                    },
                )
            } else {
                stopped(state, ExecStatus::InputExhausted)
            },
            Token::Print => advanced(
                program,
                MachineState { output: state.output + state.tape.cells, ..state },
            ),
            Token::Exit => stopped(state, ExecStatus::Halted),
            Token::Begin => if state.tape.current() != 0 {
                advanced(program, state)
            } else {
                let end = next_end(program, state.program_head);
                if end < program.len() {
                    jumped(program, state, end + 1)
                } else {
                    stopped(state, ExecStatus::Halted)
                }
            },
            Token::End => if state.tape.current() == 0 {
                advanced(program, state)
            } else {
                let begin = prev_begin(program, state.program_head);
                if begin >= 0 {
                    jumped(program, state, begin + 1)
                } else {
                    stopped(state, ExecStatus::Halted)
                }
            },
        }
    }
}

/// The state after `steps` instructions, or after as many as the machine
/// executes before it stops, if those are fewer.
pub open spec fn run(
    program: Seq<Token>,
    input: Seq<u8>,
    state: MachineState,
    steps: nat,
) -> MachineState
    decreases steps,
{
    if steps == 0 {
        state
    } else {
        step(program, input, run(program, input, state, (steps - 1) as nat))
    }
}

/// `next_end` finds the first `End` at or behind `from`.
pub proof fn lemma_next_end(program: Seq<Token>, from: int)
    requires
        0 <= from <= program.len(),
    ensures
        from <= next_end(program, from) <= program.len(),
        next_end(program, from) < program.len() ==> program[next_end(program, from)]
            == Token::End,
        forall|i: int| from <= i < next_end(program, from) ==> program[i] != Token::End,
    decreases program.len() - from,
{
    if from < program.len() && program[from] != Token::End {
        lemma_next_end(program, from + 1);
    }
}

/// `prev_begin` finds the last `Begin` at or before `from`.
pub proof fn lemma_prev_begin(program: Seq<Token>, from: int)
    requires
        -1 <= from < program.len(),
    ensures
        -1 <= prev_begin(program, from) <= from,
        prev_begin(program, from) >= 0 ==> program[prev_begin(program, from)] == Token::Begin,
        forall|i: int| prev_begin(program, from) < i <= from ==> program[i] != Token::Begin,
    decreases from + 1,
{
    if from >= 0 && program[from] != Token::Begin {
        lemma_prev_begin(program, from - 1);
    }
}

/// A step leads from a valid state to a valid state.
pub proof fn lemma_step_valid(program: Seq<Token>, input: Seq<u8>, state: MachineState)
    requires
        valid(program, input, state),
    ensures
        valid(program, input, step(program, input, state)),
{
    if state.status == ExecStatus::Running {
        lemma_next_end(program, state.program_head);
        lemma_prev_begin(program, state.program_head);
    }
}

/// The start state is valid.
pub proof fn lemma_start_valid(program: Seq<Token>, input: Seq<u8>)
    ensures
        valid(program, input, start(program)),
{
}

/// Running leads from a valid state to a valid state.
pub proof fn lemma_run_valid(program: Seq<Token>, input: Seq<u8>, state: MachineState, steps: nat)
    requires
        valid(program, input, state),
    ensures
        valid(program, input, run(program, input, state, steps)),
    decreases steps,
{
    if steps > 0 {
        lemma_run_valid(program, input, state, (steps - 1) as nat);
        lemma_step_valid(program, input, run(program, input, state, (steps - 1) as nat));
    }
}

/// A machine that has stopped stays as it is, however long it is run.
pub proof fn lemma_run_stopped(program: Seq<Token>, input: Seq<u8>, state: MachineState, steps: nat)
    requires
        state.status != ExecStatus::Running,
    ensures
        run(program, input, state, steps) == state,
    decreases steps,
{
    if steps > 0 {
        lemma_run_stopped(program, input, state, (steps - 1) as nat);
    }
}

/// Running in two stretches is running once for their sum.
pub proof fn lemma_run_split(
    program: Seq<Token>,
    input: Seq<u8>,
    state: MachineState,
    first: nat,
    second: nat,
)
    ensures
        run(program, input, run(program, input, state, first), second) == run(
            program,
            input,
            state,
            first + second,
        ),
    decreases second,
{
    if second > 0 {
        lemma_run_split(program, input, state, first, (second - 1) as nat);
    }
}

/// Once a run has stopped, more steps change nothing.
pub proof fn lemma_run_final(
    program: Seq<Token>,
    input: Seq<u8>,
    state: MachineState,
    steps: nat,
    more: nat,
)
    requires
        run(program, input, state, steps).status != ExecStatus::Running,
        steps <= more,
    ensures
        run(program, input, state, more) == run(program, input, state, steps),
{
    lemma_run_split(program, input, state, steps, (more - steps) as nat);
    lemma_run_stopped(program, input, run(program, input, state, steps), (more - steps) as nat);
}

} // verus!
