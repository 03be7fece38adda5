//! Bids.

use vstd::prelude::*;
use crate::error::Error;

verus! {

/// A bid: the number of tricks, from 1 to 13, that a seat commits to win in a round.
#[derive(Debug, Clone, Copy, PartialEq, Eq, Structural, PartialOrd, Ord)]
pub struct Call(u8);

impl Call {
    /// The number of tricks bid.
    pub closed spec fn tricks(self) -> int {
        self.0 as int
    }

    /// A bid is for at least one trick and for thirteen at most.
    #[verifier::type_invariant]
    pub open spec fn wf(self) -> bool {
        1 <= self.tricks() <= 13
    }

    /// What `new` answers for a given number.
    pub open spec fn checked(call: u8) -> Result<Call, Error> {
        if call < 1 {
            Err(Error::CallValueTooSmall)
        } else if call > 13 {
            Err(Error::CallValueTooLarge)
        } else {
            Ok(Call::of(call))
        }
    }

    /// The bid of a given number of tricks, as a value of specifications.
    pub closed spec fn of(call: u8) -> Call {
        Call(call)
    }

    /// The bid of a given number of tricks, if the number is from 1 to 13.
    pub fn new(call: u8) -> (result: Result<Self, Error>)
        ensures
            result == Call::checked(call),
            result matches Ok(c) ==> c.wf() && c.tricks() == call,
    {
        if call < 1 {
            Err(Error::CallValueTooSmall)
        } else if call > 13 {
            Err(Error::CallValueTooLarge)
        } else {
            Ok(Call(call))
        }
    }

    /// The number of tricks bid.
    pub fn value(&self) -> (value: u8)
        ensures
            value == self.tricks(),
            1 <= value <= 13,
    {
        proof {
            use_type_invariant(self);
        }
        self.0
    }

    /// A bid is the number that it was made from.
    pub broadcast proof fn lemma_of_tricks(call: u8)
        ensures
            (#[trigger] Call::of(call)).tricks() == call,
    {
    }

    /// Reading a bid's number and making a bid from it gives the bid back, for
    /// every bid from 1 to 13.
    pub proof fn lemma_round_trip(self)
        requires
            self.wf(),
        ensures
            Call::checked(self.tricks() as u8) == Ok::<Call, Error>(self),
    {
    }

    /// A number outside 1 to 13 makes no bid.
    pub proof fn lemma_out_of_range(call: u8)
        ensures
            Call::checked(call) is Ok <==> 1 <= call <= 13,
            call == 0 ==> Call::checked(call) == Err::<Call, Error>(Error::CallValueTooSmall),
            call >= 14 ==> Call::checked(call) == Err::<Call, Error>(Error::CallValueTooLarge),
    {
    }
}

} // verus!
