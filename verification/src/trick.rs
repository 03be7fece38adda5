//! The trick: whose turn it is, who wins, and which cards may be played.

use vstd::prelude::*;
use vstd::multiset::Multiset;
use crate::deck::{Card, Suit};
use crate::error::Error;
use crate::hand::{copy_of, select, Hand};
use crate::turn::{seat_after, Turn};

verus! {

/// One exchange of four cards, one from each seat, begun by the starter and
/// continued in the order of the seats.
#[derive(Debug, Clone, Copy)]
pub struct Trick {
    starter_turn: Turn,
    cards: [Option<Card>; 4],
}

/// The cards of one suit.
pub open spec fn of_suit(suit: Suit) -> spec_fn(Card) -> bool {
    |c: Card| c.suit() == suit
}

/// The cards of one suit that rank above a given strength.
pub open spec fn of_suit_above(suit: Suit, strength: int) -> spec_fn(Card) -> bool {
    |c: Card| c.suit() == suit && c.rank().strength() > strength
}

/// One for a card that is there, nothing for an empty place.
pub open spec fn one_if(card: Option<Card>) -> int {
    if card is Some {
        1
    } else {
        0
    }
}

/// The card of a place, taken as a heap of cards: one card, or none.
pub open spec fn heap_of(card: Option<Card>) -> Multiset<Card> {
    match card {
        Some(c) => Multiset::singleton(c),
        None => Multiset::empty(),
    }
}

impl Trick {
    /// The seat that began the trick.
    pub closed spec fn starter_turn(self) -> Turn {
        self.starter_turn
    }

    /// What a seat has put into the trick, for the seats 0 to 3.
    pub closed spec fn slot(self, seat: int) -> Option<Card> {
        self.cards@[seat]
    }

    /// The number of the seat that began the trick.
    pub open spec fn starter_seat(self) -> int {
        self.starter_turn().seat()
    }

    /// How many cards lie in the trick.
    pub open spec fn played(self) -> int {
        one_if(self.slot(0)) + one_if(self.slot(1)) + one_if(self.slot(2)) + one_if(self.slot(3))
    }

    /// The cards that lie in the trick, taken as a heap.
    pub open spec fn cards(self) -> Multiset<Card> {
        heap_of(self.slot(0)).add(heap_of(self.slot(1))).add(heap_of(self.slot(2))).add(heap_of(self.slot(3)))
    }

    /// All four seats have played.
    pub open spec fn is_full(self) -> bool {
        self.played() == 4
    }

    /// The cards lie with the seats that come first after the starter: with
    /// `played()` cards in the trick, the seats 0 to `played() - 1` places after
    /// the starter have played and the others have not.
    #[verifier::type_invariant]
    pub open spec fn wf(self) -> bool {
        &&& self.starter_turn().wf()
        &&& (self.slot(seat_after(self.starter_seat(), 0)) is Some <==> 0 < self.played())
        &&& (self.slot(seat_after(self.starter_seat(), 1)) is Some <==> 1 < self.played())
        &&& (self.slot(seat_after(self.starter_seat(), 2)) is Some <==> 2 < self.played())
        &&& (self.slot(seat_after(self.starter_seat(), 3)) is Some <==> 3 < self.played())
    }

    /// The card that the starter led, once it has.
    pub open spec fn lead(self) -> Option<Card> {
        self.slot(self.starter_seat())
    }

    /// The seat that plays next, while the trick is not full.
    pub open spec fn acting_seat(self) -> int {
        seat_after(self.starter_seat(), self.played())
    }

    /// Some seat has played a Spade.
    pub open spec fn trumped(self) -> bool {
        ||| (self.slot(0) matches Some(c) && c.suit() == Suit::Spades)
        ||| (self.slot(1) matches Some(c) && c.suit() == Suit::Spades)
        ||| (self.slot(2) matches Some(c) && c.suit() == Suit::Spades)
        ||| (self.slot(3) matches Some(c) && c.suit() == Suit::Spades)
    }

    /// The suit that wins the trick as it stands: Spades once a Spade lies in
    /// it, else the suit that was led. It has a meaning once a card was led.
    pub open spec fn winning_suit(self) -> Suit {
        if self.trumped() {
            Suit::Spades
        } else {
            self.lead().unwrap().suit()
        }
    }

    /// The seat has played a card of the winning suit.
    pub open spec fn contends(self, seat: int) -> bool {
        self.slot(seat) matches Some(c) && c.suit() == self.winning_suit()
    }

    /// The strength of the card that a seat contends with, and nothing for a
    /// seat that does not contend.
    pub open spec fn strength_at(self, seat: int) -> int {
        if self.contends(seat) {
            self.slot(seat).unwrap().rank().strength()
        } else {
            0
        }
    }

    /// The strength of the card that wins the trick as it stands.
    pub open spec fn winning_strength(self) -> int {
        vstd::math::max(
            vstd::math::max(self.strength_at(0), self.strength_at(1)),
            vstd::math::max(self.strength_at(2), self.strength_at(3)),
        )
    }

    /// The seat wins the trick as it stands: its card is of the winning suit,
    /// and no card of that suit in the trick ranks above it. Between two cards
    /// of one rank, which can only be one card played twice, the seat with the
    /// higher number wins.
    pub open spec fn is_winner(self, seat: int) -> bool {
        &&& 0 <= seat < 4
        &&& self.contends(seat)
        &&& forall|other: int|
            0 <= other < 4 && #[trigger] self.contends(other) ==> self.strength_at(other) < self.strength_at(seat)
                || (self.strength_at(other) == self.strength_at(seat) && other <= seat)
    }

    /// The cards of a hand that may be played into the trick.
    ///
    /// Into a full trick nothing may be played, and to an empty one any card
    /// may be led. Otherwise the first of these that is not empty, where no
    /// Spade lies on another suit: the cards of the suit led that rank above
    /// the winning card; the cards of the suit led; the Spades; the whole hand.
    /// And where a Spade lies on another suit that was led: the cards of the
    /// suit led; the Spades that rank above the winning Spade; the whole hand.
    pub open spec fn legal_moves(self, hand: Seq<Card>) -> Seq<Card> {
        if self.is_full() {
            Seq::empty()
        } else if self.lead() is None {
            hand
        } else {
            let led = self.lead().unwrap().suit();
            let top = self.winning_strength();
            let follow = hand.filter(of_suit(led));
            if led == self.winning_suit() {
                let higher = hand.filter(of_suit_above(led, top));
                let trumps = hand.filter(of_suit(Suit::Spades));
                if higher.len() > 0 {
                    higher
                } else if follow.len() > 0 {
                    follow
                } else if trumps.len() > 0 {
                    trumps
                } else {
                    hand
                }
            } else {
                let higher = hand.filter(of_suit_above(self.winning_suit(), top));
                if follow.len() > 0 {
                    follow
                } else if higher.len() > 0 {
                    higher
                } else {
                    hand
                }
            }
        }
    }

    /// A trick that the given seat begins, with no card in it yet.
    pub fn new(starter: Turn) -> (trick: Self)
        ensures
            trick.wf(),
            trick.starter_turn() == starter,
            trick.played() == 0,
            forall|seat: int| 0 <= seat < 4 ==> trick.slot(seat) is None,
    {
        proof {
            use_type_invariant(&starter);
        }
        Trick { starter_turn: starter, cards: [None;4] }
    }

    /// Puts a card into the trick for the seat whose turn it is. Whether the
    /// card is one that the seat may play is for the caller to decide, with
    /// `valid_play_from`.
    pub fn play(&mut self, card: Card) -> (result: Result<(), Error>)
        ensures
            final(self).wf(),
            final(self).starter_turn() == old(self).starter_turn(),
            old(self).is_full() ==> result == Err::<(), Error>(Error::NotAcceptingPlay) && *final(self) == *old(
                self,
            ),
            !old(self).is_full() ==> {
                &&& result == Ok::<(), Error>(())
                &&& final(self).played() == old(self).played() + 1
                &&& final(self).slot(old(self).acting_seat()) == Some(card)
                &&& forall|seat: int|
                    0 <= seat < 4 && seat != old(self).acting_seat() ==> final(self).slot(seat) == old(self).slot(
                        seat,
                    )
            },
    {
        proof {
            use_type_invariant(&*self);
        }
        match self.turn() {
            Err(_) => Err(Error::NotAcceptingPlay),
            Ok(next) => {
                self.cards[next.index()] = Some(card);
                Ok(())
            },
        }
    }

    /// The seat whose turn it is to play into the trick.
    pub fn turn(&self) -> (result: Result<Turn, Error>)
        ensures
            match result {
                Ok(turn) => !self.is_full() && turn.wf() && turn.seat() == self.acting_seat() && self.slot(
                    turn.seat(),
                ) is None,
                Err(e) => self.is_full() && e == Error::NotAcceptingPlay,
            },
    {
        proof {
            use_type_invariant(self);
        }
        if self.is_over() {
            Err(Error::NotAcceptingPlay)
        } else {
            let mut turn = self.starter_turn;
            let mut steps: usize = 0;
            while self.cards[turn.index()].is_some()
                invariant
                    self.wf(),
                    !self.is_full(),
                    turn.wf(),
                    0 <= steps <= self.played(),
                    turn.seat() == seat_after(self.starter_seat(), steps as int),
                decreases 4 - steps,
            {
                turn = turn.next();
                steps += 1;
            }
            Ok(turn)
        }
    }

    /// Whether all four seats have played.
    pub fn is_over(&self) -> (over: bool)
        ensures
            over == self.is_full(),
    {
        self.cards[0].is_some() && self.cards[1].is_some() && self.cards[2].is_some() && self.cards[3].is_some()
    }

    /// The seat that began the trick, and the card it led once it has.
    pub fn starter(&self) -> (starter: (Turn, Option<Card>))
        ensures
            starter.0 == self.starter_turn(),
            starter.1 == self.lead(),
    {
        (self.starter_turn, self.cards[self.starter_turn.index()])
    }

    /// What a seat has put into the trick.
    pub fn card_of(&self, turn: Turn) -> (card: Option<Card>)
        ensures
            card == self.slot(turn.seat()),
    {
        self.cards[turn.index()]
    }

    /// The seat that wins the trick as it stands, with its card: none before a
    /// card was led; then the highest Spade in the trick, if a Spade was
    /// played, else the highest card of the suit led.
    pub fn winner(&self) -> (winner: Option<(Turn, Card)>)
        ensures
            winner is None <==> self.lead() is None,
            winner matches Some((turn, card)) ==> {
                &&& turn.wf()
                &&& self.is_winner(turn.seat())
                &&& self.slot(turn.seat()) == Some(card)
                &&& card.suit() == self.winning_suit()
                &&& card.rank().strength() == self.winning_strength()
            },
    {
        let led = match self.cards[self.starter_turn.index()] {
            None => {
                return None;
            },
            Some(card) => card,
        };
        let trumped = self.has_trump();
        let suit = if trumped {
            Suit::Spades
        } else {
            led.get_suit()
        };
        let mut best: Option<(usize, Card)> = None;
        let mut i: usize = 0;
        while i < 4
            invariant
                i <= 4,
                suit == self.winning_suit(),
                match best {
                    None => forall|other: int| 0 <= other < i ==> !self.contends(other),
                    Some((seat, card)) => {
                        &&& seat < i
                        &&& self.slot(seat as int) == Some(card)
                        &&& self.contends(seat as int)
                        &&& forall|other: int|
                            0 <= other < i && #[trigger] self.contends(other) ==> self.strength_at(other)
                                < self.strength_at(seat as int) || (self.strength_at(other) == self.strength_at(
                                seat as int,
                            ) && other <= seat)
                    },
                },
            decreases 4 - i,
        {
            match self.cards[i] {
                None => {},
                Some(card) => {
                    if card.get_suit() == suit {
                        match best {
                            None => {
                                best = Some((i, card));
                            },
                            Some((_, held)) => {
                                if card.get_rank().value() >= held.get_rank().value() {
                                    best = Some((i, card));
                                }
                            },
                        }
                    }
                },
            }
            i += 1;
        }
        match best {
            None => {
                proof {
                    assert(self.contends(self.starter_seat()) || self.trumped());
                }
                None
            },
            Some((seat, card)) => Some((Turn::new(seat), card)),
        }
    }

    /// Whether a Spade lies in the trick.
    pub fn has_trump(&self) -> (trumped: bool)
        ensures
            trumped == self.trumped(),
    {
        self.spade_at(0) || self.spade_at(1) || self.spade_at(2) || self.spade_at(3)
    }

    fn spade_at(&self, seat: usize) -> (spade: bool)
        requires
            seat < 4,
        ensures
            spade == (self.slot(seat as int) matches Some(c) && c.suit() == Suit::Spades),
    {
        match self.cards[seat] {
            None => false,
            Some(card) => card.get_suit().is_trump(),
        }
    }

    /// The cards of a hand that may be played into the trick as it stands.
    pub fn valid_play_from(&self, hand: &Hand) -> (moves: Vec<Card>)
        ensures
            moves@ == self.legal_moves(hand@),
    {
        self.valid_plays(hand.get_cards())
    }

    /// Those of the given cards that may be played into the trick as it
    /// stands.
    pub fn valid_plays(&self, hand: &[Card]) -> (moves: Vec<Card>)
        ensures
            moves@ == self.legal_moves(hand@),
    {
        if self.is_over() {
            return Vec::new();
        }
        let (starter, winner) = match self.winner() {
            None => {
                return copy_of(hand);
            },
            Some((_, winner)) => (self.starter().1.unwrap(), winner),
        };
        let led = starter.get_suit();
        let top: u8 = winner.get_rank().value();
        let follow = select(
            hand,
            |card: &Card| -> (yes: bool)
                ensures yes == of_suit(led)(*card)
            {
                card.get_suit() == led
            },
        );
        assert(follow@ == hand@.filter(of_suit(led)));
        if led == winner.get_suit() {
            let higher = select(
                hand,
                |card: &Card| -> (yes: bool)
                    ensures yes == of_suit_above(led, top as int)(*card)
                {
                    card.get_suit() == led && card.get_rank().value() > top
                },
            );
            assert(higher@ == hand@.filter(of_suit_above(led, top as int)));
            if higher.len() > 0 {
                return higher;
            }
            if follow.len() > 0 {
                return follow;
            }
            let trumps = select(
                hand,
                |card: &Card| -> (yes: bool)
                    ensures yes == of_suit(Suit::Spades)(*card)
                {
                    card.get_suit().is_trump()
                },
            );
            assert(trumps@ == hand@.filter(of_suit(Suit::Spades)));
            if trumps.len() > 0 {
                return trumps;
            }
            copy_of(hand)
        } else {
            if follow.len() > 0 {
                return follow;
            }
            let trump = winner.get_suit();
            let higher = select(
                hand,
                |card: &Card| -> (yes: bool)
                    ensures yes == of_suit_above(trump, top as int)(*card)
                {
                    card.get_suit() == trump && card.get_rank().value() > top
                },
            );
            assert(higher@ == hand@.filter(of_suit_above(trump, top as int)));
            if higher.len() > 0 {
                return higher;
            }
            copy_of(hand)
        }
    }

    /// A seat that has cards always has a card that it may play: into a trick
    /// that is not full, the legal cards of a hand that is not empty are not
    /// empty.
    pub proof fn lemma_legal_moves_not_empty(self, hand: Seq<Card>)
        requires
            !self.is_full(),
            hand.len() > 0,
        ensures
            self.legal_moves(hand).len() > 0,
    {
    }

    /// Every card that may be played is a card of the hand.
    pub proof fn lemma_legal_moves_in_hand(self, hand: Seq<Card>, card: Card)
        requires
            self.legal_moves(hand).contains(card),
        ensures
            hand.contains(card),
    {
        if !self.is_full() && self.lead() is Some {
            let led = self.lead().unwrap().suit();
            let top = self.winning_strength();
            if hand.filter(of_suit(led)).contains(card) {
                hand.lemma_filter_contains_rev(of_suit(led), card);
            }
            if hand.filter(of_suit_above(led, top)).contains(card) {
                hand.lemma_filter_contains_rev(of_suit_above(led, top), card);
            }
            if hand.filter(of_suit(Suit::Spades)).contains(card) {
                hand.lemma_filter_contains_rev(of_suit(Suit::Spades), card);
            }
            if hand.filter(of_suit_above(self.winning_suit(), top)).contains(card) {
                hand.lemma_filter_contains_rev(of_suit_above(self.winning_suit(), top), card);
            }
        }
    }

    /// A seat that can follow the suit led must do so, also where a Spade is
    /// winning and the seat holds a higher Spade: the legal cards are then the
    /// cards of the suit led, and no others.
    pub proof fn lemma_follow_before_trump(self, hand: Seq<Card>)
        requires
            !self.is_full(),
            self.lead() is Some,
            self.lead().unwrap().suit() != self.winning_suit(),
            hand.filter(of_suit(self.lead().unwrap().suit())).len() > 0,
        ensures
            self.legal_moves(hand) == hand.filter(of_suit(self.lead().unwrap().suit())),
    {
    }

    /// No card lies in the trick twice.
    pub open spec fn all_different(self) -> bool {
        forall|a: int, b: int|
            0 <= a < 4 && 0 <= b < 4 && a != b && (#[trigger] self.slot(a)) is Some ==> self.slot(a)
                != #[trigger] self.slot(b)
    }

    /// In a trick in which no card lies twice, the winner's card ranks
    /// strictly above every other card of the winning suit.
    pub proof fn lemma_clear_winner(self, seat: int, other: int)
        requires
            self.all_different(),
            self.is_winner(seat),
            0 <= other < 4,
            other != seat,
            self.contends(other),
        ensures
            self.strength_at(other) < self.strength_at(seat),
    {
        let mine = self.slot(seat).unwrap();
        let theirs = self.slot(other).unwrap();
        if mine.rank().strength() == theirs.rank().strength() {
            mine.rank().lemma_at_strength();
            theirs.rank().lemma_at_strength();
            mine.lemma_card_parts();
            theirs.lemma_card_parts();
            assert(mine == theirs);
        }
    }

    /// At most one seat wins a trick.
    pub proof fn lemma_one_winner(self, seat: int, other: int)
        requires
            self.is_winner(seat),
            self.is_winner(other),
        ensures
            seat == other,
    {
    }

    /// Once a card was led, some seat wins the trick.
    pub proof fn lemma_some_winner(self)
        requires
            self.wf(),
            self.lead() is Some,
        ensures
            exists|seat: int| self.is_winner(seat),
    {
        let a: int = if self.contends(0) && self.strength_at(0) > self.strength_at(1) {
            0
        } else if self.contends(1) {
            1
        } else {
            0
        };
        let b: int = if self.contends(2) && self.strength_at(2) > self.strength_at(3) {
            2
        } else if self.contends(3) {
            3
        } else {
            2
        };
        let w: int = if self.contends(b) && self.strength_at(b) >= self.strength_at(a) {
            b
        } else if self.contends(a) {
            a
        } else {
            b
        };
        assert(self.contends(self.starter_seat()) || self.trumped());
        assert(self.is_winner(w));
    }
}

} // verus!
