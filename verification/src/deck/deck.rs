//! The deck: the 52 cards in an order that a shuffle gives them.

use vstd::prelude::*;
use super::card::Card;
use super::rank::Rank;
use super::suit::Suit;
use vstd::seq_lib::{seq_to_set_is_finite, to_multiset_contains};
use vstd::set_lib::lemma_subset_equality;
use crate::hand::{all_different, copy_of};
use crate::shuffle::{lemma_same_items, shuffle};

verus! {

/// The 52 cards in some order, and how many of them were handed out.
#[derive(Debug, Clone)]
pub struct Deck {
    idx: usize,
    cards: Vec<Card>,
}

/// The 52 cards in the order of a new pack: rank by rank from the Two to the
/// Ace, and for each rank Clubs, Diamonds, Hearts, Spades.
pub open spec fn standard() -> Seq<Card> {
    Seq::new(52, |i: int| Card::of(Rank::at(i / 4), Suit::at(i % 4)))
}

/// Every card is in the pack, at the place that its rank and suit give it.
pub proof fn lemma_standard_complete(card: Card)
    ensures
        standard().contains(card),
        standard()[(card.rank().strength() - 2) * 4 + card.suit().ordinal()] == card,
{
    let i = (card.rank().strength() - 2) * 4 + card.suit().ordinal();
    card.rank().lemma_at_strength();
    card.lemma_card_parts();
    assert(Suit::at(card.suit().ordinal()) == card.suit());
    assert(i / 4 == card.rank().strength() - 2);
    assert(i % 4 == card.suit().ordinal());
    assert(standard()[i] == card);
}

/// No card is in the pack twice.
pub proof fn lemma_standard_distinct()
    ensures
        standard().len() == 52,
        standard().no_duplicates(),
{
    assert forall|i: int, j: int| 0 <= i < 52 && 0 <= j < 52 && i != j implies standard()[i] != standard()[j] by {
        Card::lemma_of_parts(Rank::at(i / 4), Suit::at(i % 4));
        Card::lemma_of_parts(Rank::at(j / 4), Suit::at(j % 4));
        assert(Rank::at(i / 4).strength() == i / 4 + 2);
        assert(Rank::at(j / 4).strength() == j / 4 + 2);
        assert(Suit::at(i % 4).ordinal() == i % 4);
        assert(Suit::at(j % 4).ordinal() == j % 4);
    }
}

/// Any 52 cards that are all different are the 52 cards of the pack.
pub proof fn lemma_distinct_cards_are_pack(cards: Seq<Card>)
    requires
        cards.len() == 52,
        cards.no_duplicates(),
    ensures
        cards.to_multiset() == standard().to_multiset(),
{
    lemma_standard_distinct();
    cards.unique_seq_to_set();
    standard().unique_seq_to_set();
    seq_to_set_is_finite(cards);
    seq_to_set_is_finite(standard());
    assert(cards.to_set().subset_of(standard().to_set())) by {
        assert forall|c: Card| cards.to_set().contains(c) implies standard().to_set().contains(c) by {
            lemma_standard_complete(c);
        }
    }
    lemma_subset_equality(cards.to_set(), standard().to_set());
    cards.lemma_multiset_has_no_duplicates();
    standard().lemma_multiset_has_no_duplicates();
    assert forall|c: Card| cards.to_multiset().count(c) == standard().to_multiset().count(c) by {
        lemma_standard_complete(c);
        assert(standard().to_set().contains(c));
        assert(cards.to_set().contains(c));
        assert(cards.contains(c));
        to_multiset_contains(cards, c);
        to_multiset_contains(standard(), c);
    }
    assert(cards.to_multiset() =~= standard().to_multiset());
}

impl Deck {
    /// The cards of the deck in their order.
    pub closed spec fn cards(&self) -> Seq<Card> {
        self.cards@
    }

    /// How many cards were handed out.
    pub closed spec fn position(&self) -> int {
        self.idx as int
    }

    /// A deck holds the 52 cards of the pack, each once, in some order.
    pub open spec fn wf(&self) -> bool {
        &&& self.cards().to_multiset() == standard().to_multiset()
        &&& 0 <= self.position() <= 52
    }

    /// A shuffled deck of which no card was handed out.
    pub fn new() -> (deck: Self)
        ensures
            deck.wf(),
            deck.position() == 0,
    {
        let mut deck = Deck::ordered();
        deck.shuffle();
        deck
    }

    /// The deck in the order of a new pack.
    pub fn ordered() -> (deck: Self)
        ensures
            deck.wf(),
            deck.position() == 0,
            deck.cards() == standard(),
    {
        let mut cards: Vec<Card> = Vec::new();
        let mut rank: u8 = 0;
        while rank < 13
            invariant
                rank <= 13,
                cards@ == standard().take(4 * rank),
            decreases 13 - rank,
        {
            let mut suit: u8 = 0;
            while suit < 4
                invariant
                    rank < 13,
                    suit <= 4,
                    cards@ == standard().take(4 * rank + suit),
                decreases 4 - suit,
            {
                let r = Rank::from_value(rank + 2).unwrap();
                let s = Suit::from_index(suit).unwrap();
                let ghost at = 4 * rank + suit;
                assert(at / 4 == rank && at % 4 == suit);
                assert(standard().take(at + 1) =~= standard().take(at).push(standard()[at]));
                cards.push(Card::new(r, s));
                suit += 1;
            }
            rank += 1;
        }
        assert(standard().take(52) =~= standard());
        Deck { idx: 0, cards }
    }

    /// The deck that holds the given cards in the given order, if they are the
    /// 52 cards of the pack: 52 cards that are all different.
    pub fn from_cards(cards: &[Card]) -> (deck: Option<Self>)
        ensures
            deck is Some <==> cards@.to_multiset() == standard().to_multiset(),
            deck is Some <==> cards@.len() == 52 && cards@.no_duplicates(),
            deck matches Some(d) ==> d.wf() && d.position() == 0 && d.cards() == cards@,
    {
        proof {
            if cards@.len() == 52 && cards@.no_duplicates() {
                lemma_distinct_cards_are_pack(cards@);
            }
            if cards@.to_multiset() == standard().to_multiset() {
                lemma_same_items(cards@, standard());
                lemma_standard_distinct();
            }
        }
        if cards.len() == 52 && all_different(cards) {
            Some(Deck { idx: 0, cards: copy_of(cards) })
        } else {
            None
        }
    }

    /// Puts the cards of the deck into a random order.
    pub fn shuffle(&mut self)
        ensures
            final(self).cards().to_multiset() == old(self).cards().to_multiset(),
            final(self).position() == old(self).position(),
    {
        let mut rng = rand::rng();
        shuffle(&mut self.cards, &mut rng);
    }

    /// Hands out the next card of the deck, while there is one.
    pub fn next(&mut self) -> (card: Option<Card>)
        ensures
            final(self).cards() == old(self).cards(),
            old(self).position() < old(self).cards().len() ==> card == Some(
                old(self).cards()[old(self).position()],
            ) && final(self).position() == old(self).position() + 1,
            old(self).position() >= old(self).cards().len() ==> card is None && final(self).position() == old(
                self,
            ).position(),
    {
        if self.idx < self.cards.len() {
            let card = self.cards[self.idx];
            self.idx += 1;
            Some(card)
        } else {
            None
        }
    }

    /// The cards of the deck that were not handed out yet, in their order.
    pub fn remaining(&self) -> (cards: &[Card])
        requires
            self.position() <= self.cards().len(),
        ensures
            cards@ == self.cards().skip(self.position()),
    {
        let all = self.cards.as_slice();
        let rest = &all[self.idx..all.len()];
        assert(rest@ =~= self.cards().skip(self.position()));
        rest
    }

    /// All the cards of the deck in their order, handed out or not.
    pub fn as_slice(&self) -> (cards: &[Card])
        ensures
            cards@ == self.cards(),
    {
        self.cards.as_slice()
    }

    /// A deck has 52 cards and holds no card twice.
    pub proof fn lemma_full_pack(&self)
        requires
            self.wf(),
        ensures
            self.cards().len() == 52,
            self.cards().no_duplicates(),
    {
        lemma_same_items(self.cards(), standard());
        lemma_standard_distinct();
    }

    /// A deck holds every card.
    pub proof fn lemma_holds_every_card(&self, card: Card)
        requires
            self.wf(),
        ensures
            self.cards().contains(card),
    {
        lemma_same_items(self.cards(), standard());
        lemma_standard_complete(card);
    }
}

impl Default for Deck {
    fn default() -> (deck: Self)
        ensures
            deck.wf(),
            deck.position() == 0,
    {
        Deck::new()
    }
}

} // verus!
