//! Suits.

use vstd::prelude::*;

verus! {

/// The four suits. Spades is the trump suit, always.
#[derive(Debug, Clone, Copy, PartialEq, Eq, Structural, Hash)]
pub enum Suit {
    Clubs,
    Diamonds,
    Hearts,
    Spades,
}

impl Suit {
    /// The position of a suit in the list Clubs, Diamonds, Hearts, Spades.
    pub open spec fn ordinal(self) -> int {
        match self {
            Suit::Clubs => 0,
            Suit::Diamonds => 1,
            Suit::Hearts => 2,
            Suit::Spades => 3,
        }
    }

    /// The suit at a position of that list.
    pub open spec fn at(index: int) -> Suit {
        if index == 0 {
            Suit::Clubs
        } else if index == 1 {
            Suit::Diamonds
        } else if index == 2 {
            Suit::Hearts
        } else {
            Suit::Spades
        }
    }

    pub fn index(&self) -> (index: u8)
        ensures
            index == self.ordinal(),
            index < 4,
    {
        match self {
            Suit::Clubs => 0,
            Suit::Diamonds => 1,
            Suit::Hearts => 2,
            Suit::Spades => 3,
        }
    }

    /// The suit at a position, if the position is below four.
    pub fn from_index(index: u8) -> (suit: Option<Suit>)
        ensures
            suit is Some <==> index < 4,
            suit matches Some(s) ==> s.ordinal() == index && s == Suit::at(index as int),
    {
        match index {
            0 => Some(Suit::Clubs),
            1 => Some(Suit::Diamonds),
            2 => Some(Suit::Hearts),
            3 => Some(Suit::Spades),
            _ => None,
        }
    }

    pub fn is_trump(&self) -> (trump: bool)
        ensures
            trump == (*self == Suit::Spades),
    {
        match self {
            Suit::Spades => true,
            _ => false,
        }
    }
}

} // verus!
