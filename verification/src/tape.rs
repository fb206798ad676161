//! The machine's memory: a fixed run of byte cells with a cursor on one of
//! them.
//!
//! The cursor can never leave the tape.  A move that would take it off
//! either end is refused and leaves the tape as it was, so that the caller
//! decides what such a move means.

use vstd::prelude::*;

verus! {

/// Number of cells on the tape.
pub const MEMORY_SIZE: usize = 30_000;

/// The tape as a mathematical value: what the cells hold and where the
/// cursor stands.
pub struct TapeState {
    pub cells: Seq<u8>,
    pub head: int,
}

impl TapeState {
    /// A tape has `MEMORY_SIZE` cells, and the cursor stands on one of them.
    pub open spec fn valid(self) -> bool {
        &&& self.cells.len() == MEMORY_SIZE
        &&& 0 <= self.head < MEMORY_SIZE
    }

    /// The tape before anything ran: all cells zero, the cursor on the
    /// first.
    pub open spec fn blank() -> TapeState {
        TapeState { cells: Seq::new(MEMORY_SIZE as nat, |i: int| 0u8), head: 0 }
    }

    /// The cell under the cursor.
    pub open spec fn current(self) -> u8 {
        self.cells[self.head]
    }

    /// The same tape with `value` in the cell under the cursor.
    pub open spec fn with_current(self, value: u8) -> TapeState {
        TapeState { cells: self.cells.update(self.head, value), head: self.head }
    }

    /// The same tape with the cell under the cursor one higher; 255 wraps
    /// to 0.
    pub open spec fn incremented(self) -> TapeState {
        self.with_current(
            if self.current() == 255 {
                0u8
            } else {
                (self.current() + 1) as u8
            },
        )
    }

    /// The same tape with the cell under the cursor one lower; 0 wraps to
    /// 255.
    pub open spec fn decremented(self) -> TapeState {
        self.with_current(
            if self.current() == 0 {
                255u8
            } else {
                (self.current() - 1) as u8
            },
        )
    }

    /// Whether there is a cell to the right of the cursor.
    pub open spec fn can_move_right(self) -> bool {
        self.head + 1 < self.cells.len()
    }

    /// Whether there is a cell to the left of the cursor.
    pub open spec fn can_move_left(self) -> bool {
        self.head > 0
    }

    /// The same tape with the cursor moved by `by` cells.
    pub open spec fn moved(self, by: int) -> TapeState {
        TapeState { cells: self.cells, head: self.head + by }
    }
}

/// The tape itself.  Its cells and cursor are reached only through the
/// operations below, which keep the cursor on the tape.
pub struct Tape {
    cells: Vec<u8>,
    head: usize,
}

impl View for Tape {
    type V = TapeState;

    closed spec fn view(&self) -> TapeState {
        TapeState { cells: self.cells@, head: self.head as int }
    }
}

impl Tape {
    /// What holds of every tape at all times.
    #[verifier::type_invariant]
    pub open spec fn well_formed(&self) -> bool {
        self@.valid()
    }

    /// A blank tape.
    pub fn new() -> (tape: Tape)
        ensures
            tape@ == TapeState::blank(),
    {
        let cells: Vec<u8> = vec![0u8; MEMORY_SIZE];
        assert(cells@ =~= TapeState::blank().cells);
        Tape { cells, head: 0 }
    }

    /// Where the cursor stands, counted from the first cell.
    pub fn position(&self) -> (position: usize)
        ensures
            position == self@.head,
            position < MEMORY_SIZE,
    {
        proof {
            use_type_invariant(self);
        }
        self.head
    }

    /// The cell under the cursor.
    pub fn read(&self) -> (value: u8)
        ensures
            value == self@.current(),
    {
        proof {
            use_type_invariant(self);
        }
        self.cells[self.head]
    }

    /// Stores `value` in the cell under the cursor.
    pub fn write(&mut self, value: u8)
        ensures
            final(self)@ == old(self)@.with_current(value),
    {
        proof {
            use_type_invariant(&*self);
        }
        self.cells[self.head] = value;
    }

    /// Adds one to the cell under the cursor, wrapping from 255 to 0.
    pub fn increment(&mut self)
        ensures
            final(self)@ == old(self)@.incremented(),
    {
        let value = self.read();
        self.write(value.wrapping_add(1));
    }

    /// Subtracts one from the cell under the cursor, wrapping from 0 to 255.
    pub fn decrement(&mut self)
        ensures
            final(self)@ == old(self)@.decremented(),
    {
        let value = self.read();
        self.write(value.wrapping_sub(1));
    }

    /// Moves the cursor one cell to the right, if there is one.  Returns
    /// whether it moved; if not, the tape is unchanged.
    pub fn move_right(&mut self) -> (moved: bool)
        ensures
            moved == old(self)@.can_move_right(),
            final(self)@ == if moved {
                old(self)@.moved(1)
            } else {
                old(self)@
            },
    {
        proof {
            use_type_invariant(&*self);
        }
        if self.head + 1 < MEMORY_SIZE {
            self.head = self.head + 1;
            true
        } else {
            false
        }
    }

    /// Moves the cursor one cell to the left, if there is one.  Returns
    /// whether it moved; if not, the tape is unchanged.
    pub fn move_left(&mut self) -> (moved: bool)
        ensures
            moved == old(self)@.can_move_left(),
            final(self)@ == if moved {
                old(self)@.moved(-1)
            } else {
                old(self)@
            },
    {
        proof {
            use_type_invariant(&*self);
        }
        if self.head > 0 {
            self.head = self.head - 1;
            true
        } else {
            false
        }
    }

    /// Appends every cell, from the first to the last, to `output`.
    pub fn dump(&self, output: &mut Vec<u8>)
        ensures
            final(output)@ == old(output)@ + self@.cells,
    {
        proof {
            use_type_invariant(self);
        }
        output.extend_from_slice(self.cells.as_slice());
        assert(output@ =~= old(output)@ + self@.cells);
    }

    /// The cells, from the first to the last.
    pub fn cells(&self) -> (cells: &Vec<u8>)
        ensures
            cells@ == self@.cells,
            cells@.len() == MEMORY_SIZE,
    {
        proof {
            use_type_invariant(self);
        }
        &self.cells
    }
}

} // verus!
