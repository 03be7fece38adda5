//! Cards.

use vstd::prelude::*;
use super::rank::Rank;
use super::suit::Suit;

verus! {

/// A playing card: a rank and a suit.
#[derive(Debug, Clone, Copy, PartialEq, Eq, Structural, Hash)]
pub struct Card {
    rank: Rank,
    suit: Suit,
}

impl Card {
    pub closed spec fn rank(self) -> Rank {
        self.rank
    }

    pub closed spec fn suit(self) -> Suit {
        self.suit
    }

    /// The card of a given rank and suit, as a value of specifications.
    pub closed spec fn of(rank: Rank, suit: Suit) -> Card {
        Card { rank, suit }
    }

    /// Where a card stands when a hand is laid out: suit by suit, and within a
    /// suit from the Ace down to the Two.
    pub open spec fn sort_key(self) -> int {
        self.suit().ordinal() * 13 + (14 - self.rank().strength())
    }

    pub fn new(rank: Rank, suit: Suit) -> (card: Self)
        ensures
            card == Card::of(rank, suit),
            card.rank() == rank,
            card.suit() == suit,
    {
        Card { rank, suit }
    }

    pub fn get_suit(&self) -> (suit: Suit)
        ensures
            suit == self.suit(),
    {
        self.suit
    }

    pub fn get_rank(&self) -> (rank: Rank)
        ensures
            rank == self.rank(),
    {
        self.rank
    }

    /// The position of the card in a laid-out hand, as a number below 52.
    pub fn key(&self) -> (key: u8)
        ensures
            key == self.sort_key(),
            key < 52,
    {
        self.suit.index() * 13 + (14 - self.rank.value())
    }

    /// A card is its rank and its suit, and nothing else.
    pub broadcast proof fn lemma_card_parts(self)
        ensures
            #[trigger] Card::of(self.rank(), self.suit()) == self,
    {
    }

    /// The rank and the suit of a card made from them are the ones given.
    pub broadcast proof fn lemma_of_parts(rank: Rank, suit: Suit)
        ensures
            (#[trigger] Card::of(rank, suit)).rank() == rank,
            Card::of(rank, suit).suit() == suit,
    {
    }

    /// Two cards with the same sort key are the same card.
    pub proof fn lemma_sort_key_injective(a: Card, b: Card)
        requires
            a.sort_key() == b.sort_key(),
        ensures
            a == b,
    {
    }
}

} // verus!
