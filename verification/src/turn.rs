//! Seats, and the order in which they act.

use vstd::prelude::*;

verus! {

/// One of the four seats at the table. Seats follow one another in a circle:
/// after seat 3 comes seat 0.
#[derive(Debug, Clone, Copy, PartialEq, Eq, Structural, PartialOrd, Ord)]
pub struct Turn(usize);

/// The seat that comes `steps` places after `seat` round the table.
pub open spec fn seat_after(seat: int, steps: int) -> int {
    (seat + steps) % 4
}

impl Turn {
    /// The number of the seat.
    pub closed spec fn seat(self) -> int {
        self.0 as int
    }

    /// The seat of a given number, as a value of specifications.
    pub closed spec fn of(seat: int) -> Turn {
        Turn(seat as usize)
    }

    /// A seat has a number below four.
    #[verifier::type_invariant]
    pub open spec fn wf(self) -> bool {
        0 <= self.seat() < 4
    }

    /// The seat whose number is the remainder of `value` by four.
    pub fn new(value: usize) -> (turn: Self)
        ensures
            turn.wf(),
            turn.seat() == value % 4,
            turn == Turn::of(value as int % 4),
    {
        Turn(value % 4)
    }

    /// The seat that acts after this one.
    pub fn next(&self) -> (turn: Self)
        ensures
            turn.wf(),
            turn.seat() == seat_after(self.seat(), 1),
            turn == Turn::of(seat_after(self.seat(), 1)),
    {
        proof {
            use_type_invariant(self);
        }
        Turn((self.0 + 1) % 4)
    }

    /// The number of the seat, to index what is kept seat by seat.
    pub fn index(&self) -> (index: usize)
        ensures
            index == self.seat(),
            index < 4,
    {
        proof {
            use_type_invariant(self);
        }
        self.0
    }

    /// A seat is the number that it was made from.
    pub broadcast proof fn lemma_of_seat(seat: int)
        requires
            0 <= seat < 4,
        ensures
            (#[trigger] Turn::of(seat)).seat() == seat,
            Turn::of(seat).wf(),
    {
    }

    /// Two seats with the same number are the same seat.
    pub proof fn lemma_same_seat(self, other: Turn)
        requires
            self.seat() == other.seat(),
        ensures
            self == other,
    {
    }

    /// Going round the table brings every seat back to itself after four steps,
    /// and not before.
    pub proof fn lemma_round_the_table(self)
        requires
            self.wf(),
        ensures
            seat_after(self.seat(), 4) == self.seat(),
            seat_after(self.seat(), 1) != self.seat(),
            seat_after(self.seat(), 2) != self.seat(),
            seat_after(self.seat(), 3) != self.seat(),
            seat_after(seat_after(self.seat(), 1), 1) == seat_after(self.seat(), 2),
            seat_after(seat_after(self.seat(), 2), 1) == seat_after(self.seat(), 3),
            seat_after(seat_after(self.seat(), 3), 1) == self.seat(),
    {
    }
}

} // verus!
