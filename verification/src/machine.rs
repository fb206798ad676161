//! The tape machine: it runs an instruction sequence against a blank tape
//! and an input, and collects the output.
//!
//! A program may loop for ever, so a machine is always run for a bounded
//! number of steps.  A caller who wants to run a program to its end calls
//! [`Machine::run`] again for as long as the machine is still running.

use vstd::prelude::*;
use crate::semantics::{
    jumped, lemma_next_end, lemma_prev_begin, lemma_run_final, next_end, prev_begin, run, start,
    step, valid, ExecStatus, MachineState,
};
use crate::tape::Tape;
use crate::token::Token;

verus! {

/// Looks for the first `End` at or behind `from`.  Returns its index, or
/// the length of the program if there is none.
pub fn find_end(program: &Vec<Token>, from: usize) -> (end: usize)
    ensures
        end == next_end(program@, from as int),
{
    let mut at: usize = from;
    while at < program.len() && program[at] != Token::End
        invariant
            from <= at,
            next_end(program@, at as int) == next_end(program@, from as int),
        decreases program.len() - at,
    {
        at = at + 1;
    }
    if at < program.len() {
        at
    } else {
        program.len()
    }
}

/// Looks for the last `Begin` at or before `from`.  Returns its index, or
/// `None` if there is none.
pub fn find_begin(program: &Vec<Token>, from: usize) -> (begin: Option<usize>)
    requires
        from < program.len(),
    ensures
        match begin {
            Some(begin) => begin == prev_begin(program@, from as int),
            None => prev_begin(program@, from as int) == -1,
        },
{
    let mut at: usize = from;
    loop
        invariant
            at <= from < program.len(),
            prev_begin(program@, at as int) == prev_begin(program@, from as int),
        decreases at,
    {
        if program[at] == Token::Begin {
            return Some(at);
        }
        if at == 0 {
            assert(prev_begin(program@, -1) == -1);
            return None;
        }
        at = at - 1;
    }
}

/// A machine in the middle of a run, with its program and its input.
pub struct Machine {
    program: Vec<Token>,
    input: Vec<u8>,
    tape: Tape,
    program_head: usize,
    consumed: usize,
    output: Vec<u8>,
    status: ExecStatus,
}

impl View for Machine {
    type V = MachineState;

    closed spec fn view(&self) -> MachineState {
        MachineState {
            tape: self.tape@,
            program_head: self.program_head as int,
            consumed: self.consumed as int,
            output: self.output@,
            status: self.status,
        }
    }
}

impl Machine {
    /// The program this machine runs.
    pub closed spec fn program(&self) -> Seq<Token> {
        self.program@
    }

    /// The input this machine reads.
    pub closed spec fn input(&self) -> Seq<u8> {
        self.input@
    }

    /// What [`Machine::new`] establishes and every operation keeps: the
    /// positions in program and input lie within them, and a running
    /// machine has a next instruction.
    pub open spec fn well_formed(&self) -> bool {
        valid(self.program(), self.input(), self@)
    }

    /// A machine about to execute the first instruction of `program`, on a
    /// blank tape.
    pub fn new(program: Vec<Token>, input: Vec<u8>) -> (machine: Machine)
        ensures
            machine.well_formed(),
            machine.program() == program@,
            machine.input() == input@,
            machine@ == start(program@),
    {
        let status = if program.len() == 0 {
            ExecStatus::Halted
        } else {
            ExecStatus::Running
        };
        Machine {
            program,
            input,
            tape: Tape::new(),
            program_head: 0,
            consumed: 0,
            output: Vec::new(),
            status,
        }
    }

    /// Whether the machine still runs, and if not, why it stopped.
    pub fn status(&self) -> (status: ExecStatus)
        ensures
            status == self@.status,
    {
        self.status
    }

    /// Whether there is a next instruction to execute.
    pub fn is_running(&self) -> (running: bool)
        ensures
            running == (self@.status == ExecStatus::Running),
    {
        match self.status {
            ExecStatus::Running => true,
            _ => false,
        }
    }

    /// The bytes written so far.
    pub fn output(&self) -> (output: &Vec<u8>)
        ensures
            output@ == self@.output,
    {
        &self.output
    }

    /// The memory as it is now.
    pub fn tape(&self) -> (tape: &Tape)
        ensures
            tape@ == self@.tape,
    {
        &self.tape
    }

    /// Index of the next instruction.
    pub fn program_head(&self) -> (program_head: usize)
        ensures
            program_head == self@.program_head,
    {
        self.program_head
    }

    /// Gives up the machine for the bytes it has written.
    pub fn into_output(self) -> (output: Vec<u8>)
        ensures
            output@ == self@.output,
    {
        self.output
    }

    /// Makes `target` the next instruction; halts if it lies behind the
    /// program.
    fn jump(&mut self, target: usize)
        requires
            old(self).well_formed(),
            old(self)@.status == ExecStatus::Running,
            target <= old(self).program().len(),
        ensures
            final(self).well_formed(),
            final(self)@ == jumped(old(self).program(), old(self)@, target as int),
            final(self).program() == old(self).program(),
            final(self).input() == old(self).input(),
    {
        if target >= self.program.len() {
            self.status = ExecStatus::Halted;
        }
        self.program_head = target;
    }

    /// Executes the next instruction.  A machine that has stopped stays as
    /// it is.
    pub fn step(&mut self)
        requires
            old(self).well_formed(),
        ensures
            final(self).well_formed(),
            final(self)@ == step(old(self).program(), old(self).input(), old(self)@),
            final(self).program() == old(self).program(),
            final(self).input() == old(self).input(),
    {
        if !self.is_running() {
            return ;
        }
        assert(self.program_head < self.program.len());
        let next: usize = self.program_head + 1;
        match self.program[self.program_head] {
            Token::Right => {
                if self.tape.move_right() {
                    self.jump(next);
                } else {
                    self.status = ExecStatus::TapeBoundsViolation;
                }
            },
            Token::Left => {
                if self.tape.move_left() {
                    self.jump(next);
                } else {
                    self.status = ExecStatus::TapeBoundsViolation;
                }
            },
            Token::Incr => {
                self.tape.increment();
                self.jump(next);
            },
            Token::Decr => {
                self.tape.decrement();
                self.jump(next);
            },
            Token::Out => {
                let value = self.tape.read();
                self.output.push(value);
                self.jump(next);
            },
            Token::In => {
                if self.consumed < self.input.len() {
                    let value = self.input[self.consumed];
                    self.tape.write(value);
                    self.consumed = self.consumed + 1;
                    self.jump(next);
                } else {
                    self.status = ExecStatus::InputExhausted;
                }
            },
            Token::Print => {
                self.tape.dump(&mut self.output);
                self.jump(next);
            },
            Token::Exit => {
                self.status = ExecStatus::Halted;
            },
            Token::Begin => {
                if self.tape.read() != 0 {
                    self.jump(next);
                } else {
                    proof {
                        lemma_next_end(self.program@, self.program_head as int);
                    }
                    let end = find_end(&self.program, self.program_head);
                    if end < self.program.len() {
                        self.jump(end + 1);
                    } else {
                        self.status = ExecStatus::Halted;
                    }
                }
            },
            Token::End => {
                if self.tape.read() == 0 {
                    self.jump(next);
                } else {
                    proof {
                        lemma_prev_begin(self.program@, self.program_head as int);
                    }
                    match find_begin(&self.program, self.program_head) {
                        Some(begin) => {
                            self.jump(begin + 1);
                        },
                        None => {
                            self.status = ExecStatus::Halted;
                        },
                    }
                }
            },
        }
    }

    /// Executes up to `max_steps` instructions, fewer if the machine stops
    /// before.  Afterwards the machine is still running exactly if the
    /// steps were not enough.
    pub fn run(&mut self, max_steps: u64)
        requires
            old(self).well_formed(),
        ensures
            final(self).well_formed(),
            final(self)@ == run(
                old(self).program(),
                old(self).input(),
                old(self)@,
                max_steps as nat,
            ),
            final(self).program() == old(self).program(),
            final(self).input() == old(self).input(),
    {
        let mut taken: u64 = 0;
        while taken < max_steps && self.is_running()
            invariant
                taken <= max_steps,
                self.well_formed(),
                self@ == run(old(self).program(), old(self).input(), old(self)@, taken as nat),
                self.program() == old(self).program(),
                self.input() == old(self).input(),
            decreases max_steps - taken,
        {
            self.step();
            taken = taken + 1;
        }
        proof {
            if taken < max_steps {
                lemma_run_final(
                    old(self).program(),
                    old(self).input(),
                    old(self)@,
                    taken as nat,
                    max_steps as nat,
                );
            }
        }
    }
}

/// Runs `instructions` on a blank tape with `input`, for at most
/// `max_steps` instructions.
///
/// Returns the output and how the run ended.  `Running` means that the
/// program had not stopped after `max_steps` instructions; the output is
/// then what it had written until there.  When the input runs out or the
/// cursor would leave the tape, the output is what was written before.
pub fn execute(instructions: Vec<Token>, input: Vec<u8>, max_steps: u64) -> (result: (
    Vec<u8>,
    ExecStatus,
))
    ensures
        result.0@ == run(instructions@, input@, start(instructions@), max_steps as nat).output,
        result.1 == run(instructions@, input@, start(instructions@), max_steps as nat).status,
{
    let mut machine = Machine::new(instructions, input);
    machine.run(max_steps);
    let status = machine.status();
    (machine.into_output(), status)
}

} // verus!
