//! The round: the deal, the bidding and thirteen tricks.

use vstd::prelude::*;
use vstd::multiset::Multiset;
use vstd::seq_lib::{lemma_multiset_commutative, to_multiset_contains, to_multiset_remove};
use crate::call::Call;
use crate::deck::deck::{lemma_standard_complete, lemma_standard_distinct, standard};
use crate::deck::{Card, Deck};
use crate::error::Error;
use crate::hand::{deal_error, holds, laid_out, valid_deal, Hand};
use crate::trick::{one_if, Trick};
use crate::turn::{seat_after, Turn};

verus! {

/// One deal: the four hands, the four bids, and up to thirteen tricks.
#[derive(Debug, Clone)]
pub struct Round {
    starter: Turn,
    hands: Vec<Hand>,
    calls: [Option<Call>; 4],
    tricks: Vec<Trick>,
}

/// Where a round stands. It goes from bidding to play to its end, never back.
#[derive(Debug, Clone, Copy, PartialEq, Eq, Structural, PartialOrd, Ord)]
pub enum State {
    Calling,
    TrickInProgress,
    Over,
}

/// How often a round is dealt anew before the deal is given up.
pub const MAX_DEALS: usize = 1000;

/// The thirteen cards of a deck that go to a seat.
pub open spec fn share(cards: Seq<Card>, seat: int) -> Seq<Card> {
    cards.subrange(13 * seat, 13 * seat + 13)
}

/// Why a deck cannot be dealt as it lies, if it cannot: the error of the first
/// seat, from seat 0 on, whose thirteen cards are no valid hand.
pub open spec fn first_deal_error(cards: Seq<Card>) -> Option<Error> {
    if deal_error(share(cards, 0)) is Some {
        deal_error(share(cards, 0))
    } else if deal_error(share(cards, 1)) is Some {
        deal_error(share(cards, 1))
    } else if deal_error(share(cards, 2)) is Some {
        deal_error(share(cards, 2))
    } else {
        deal_error(share(cards, 3))
    }
}

/// The cards that lie in some tricks, taken as a heap.
pub open spec fn cards_in(tricks: Seq<Trick>) -> Multiset<Card>
    decreases tricks.len(),
{
    if tricks.len() == 0 {
        Multiset::empty()
    } else {
        cards_in(tricks.drop_last()).add(tricks.last().cards())
    }
}

/// Four hands that hold the cards of the four shares of a deck hold, taken
/// together, the cards of the deck.
pub proof fn lemma_shares_make_deck(cards: Seq<Card>, a: Seq<Card>, b: Seq<Card>, c: Seq<Card>, d: Seq<Card>)
    requires
        cards.len() == 52,
        a.to_multiset() == share(cards, 0).to_multiset(),
        b.to_multiset() == share(cards, 1).to_multiset(),
        c.to_multiset() == share(cards, 2).to_multiset(),
        d.to_multiset() == share(cards, 3).to_multiset(),
    ensures
        a.to_multiset().add(b.to_multiset()).add(c.to_multiset()).add(d.to_multiset()) == cards.to_multiset(),
{
    let s0 = share(cards, 0);
    let s1 = share(cards, 1);
    let s2 = share(cards, 2);
    let s3 = share(cards, 3);
    assert(cards =~= s0 + s1 + s2 + s3);
    lemma_multiset_commutative(s0, s1);
    lemma_multiset_commutative(s0 + s1, s2);
    lemma_multiset_commutative(s0 + s1 + s2, s3);
}

/// A card that lies in one of some tricks lies in their heap as often, at
/// least, as in that trick.
pub proof fn lemma_cards_in_count(tricks: Seq<Trick>, k: int, card: Card)
    requires
        0 <= k < tricks.len(),
    ensures
        cards_in(tricks).count(card) >= tricks[k].cards().count(card),
    decreases tricks.len(),
{
    broadcast use vstd::multiset::group_multiset_axioms;

    if k < tricks.len() - 1 {
        lemma_cards_in_count(tricks.drop_last(), k, card);
    }
}

/// One for a bid that was made, nothing for one that was not.
pub open spec fn one_if_called(call: Option<Call>) -> int {
    if call is Some {
        1
    } else {
        0
    }
}

impl Round {
    /// The seat that bids first and leads the first trick.
    pub closed spec fn starter(&self) -> Turn {
        self.starter
    }

    /// The cards that a seat holds, for the seats 0 to 3.
    pub closed spec fn hand(&self, seat: int) -> Seq<Card> {
        self.hands@[seat]@
    }

    /// For how many seats the round keeps a hand.
    pub closed spec fn hands_kept(&self) -> int {
        self.hands@.len() as int
    }

    /// The bid of a seat, once it was made, for the seats 0 to 3.
    pub closed spec fn call_of(&self, seat: int) -> Option<Call> {
        self.calls@[seat]
    }

    /// The tricks of the round, the one in progress last.
    pub closed spec fn tricks(&self) -> Seq<Trick> {
        self.tricks@
    }

    /// How many seats have bid.
    pub open spec fn calls_made(&self) -> int {
        one_if_called(self.call_of(0)) + one_if_called(self.call_of(1)) + one_if_called(self.call_of(2))
            + one_if_called(self.call_of(3))
    }

    /// Where the round stands: bidding while a bid is missing, over once the
    /// thirteenth trick is full, and in play between the two.
    pub open spec fn stage(&self) -> State {
        if self.calls_made() < 4 {
            State::Calling
        } else if self.tricks().len() == 13 && self.tricks()[12].is_full() {
            State::Over
        } else {
            State::TrickInProgress
        }
    }

    /// The seat whose turn it is, while the round is not over: during the
    /// bidding the first seat after the starter that has not bid, and during
    /// play the seat that the trick in progress waits for.
    pub open spec fn acting_seat(&self) -> int {
        if self.calls_made() < 4 {
            seat_after(self.starter().seat(), self.calls_made())
        } else {
            self.tricks().last().acting_seat()
        }
    }

    /// Into how many tricks a seat has played.
    pub open spec fn tricks_joined(&self, seat: int) -> int {
        if self.tricks().len() == 0 {
            0
        } else {
            self.tricks().len() - 1 + one_if(self.tricks().last().slot(seat))
        }
    }

    /// What was done in the round so far: the bids made and the cards played.
    pub open spec fn progress(&self) -> int {
        if self.tricks().len() == 0 {
            self.calls_made()
        } else {
            4 + 4 * (self.tricks().len() - 1) + self.tricks().last().played()
        }
    }

    /// All the cards of the round, those in the four hands and those in the
    /// tricks, taken as a heap.
    pub open spec fn all_cards(&self) -> Multiset<Card> {
        self.hand(0).to_multiset().add(self.hand(1).to_multiset()).add(self.hand(2).to_multiset()).add(
            self.hand(3).to_multiset(),
        ).add(cards_in(self.tricks()))
    }

    /// The bids were made in the order of the seats from the starter on, and
    /// there is no trick before the fourth bid and at least one after it.
    pub open spec fn bids_in_order(&self) -> bool {
        &&& forall|seat: int|
            0 <= seat < 4 && (#[trigger] self.call_of(seat)) is Some ==> self.call_of(seat).unwrap().wf()
        &&& (self.call_of(seat_after(self.starter().seat(), 0)) is Some <==> 0 < self.calls_made())
        &&& (self.call_of(seat_after(self.starter().seat(), 1)) is Some <==> 1 < self.calls_made())
        &&& (self.call_of(seat_after(self.starter().seat(), 2)) is Some <==> 2 < self.calls_made())
        &&& (self.call_of(seat_after(self.starter().seat(), 3)) is Some <==> 3 < self.calls_made())
        &&& (self.calls_made() < 4 ==> self.tricks().len() == 0)
        &&& (self.calls_made() == 4 ==> 1 <= self.tricks().len() <= 13)
    }

    /// Every trick but the last is full, the starter of the round leads the
    /// first trick, and the winner of a trick leads the next.
    pub open spec fn tricks_in_order(&self) -> bool {
        &&& forall|k: int| 0 <= k < self.tricks().len() ==> (#[trigger] self.tricks()[k]).wf()
        &&& forall|k: int| 0 <= k < self.tricks().len() - 1 ==> (#[trigger] self.tricks()[k]).is_full()
        &&& (self.tricks().len() >= 1 ==> self.tricks()[0].starter_turn() == self.starter())
        &&& forall|k: int|
            0 <= k < self.tricks().len() - 1 ==> (#[trigger] self.tricks()[k]).is_winner(
                self.tricks()[k + 1].starter_seat(),
            )
    }

    /// A seat holds thirteen cards less one for each trick it has played into,
    /// and no card twice.
    pub open spec fn hands_fit(&self) -> bool {
        forall|seat: int|
            0 <= seat < 4 ==> (#[trigger] self.hand(seat)).no_duplicates() && self.hand(seat).len() == 13
                - self.tricks_joined(seat)
    }

    /// The cards in the hands and in the tricks are the 52 cards of the pack,
    /// each once.
    pub open spec fn whole_pack(&self) -> bool {
        self.all_cards() == standard().to_multiset()
    }

    /// What holds of a round also between the card that fills a trick and the
    /// opening of the next trick.
    pub open spec fn wf_so_far(&self) -> bool {
        &&& self.starter().wf()
        &&& self.hands_kept() == 4
        &&& self.bids_in_order()
        &&& self.tricks_in_order()
        &&& self.hands_fit()
        &&& self.whole_pack()
    }

    /// What holds of every round, from the deal to the last card:
    /// the bids were made in the order of the seats from the starter on; there
    /// is no trick before the fourth bid and at least one after it; every
    /// trick but the last is full, and the last is full only if it is the
    /// thirteenth; the starter leads the first trick and the winner of a trick
    /// leads the next; a seat holds thirteen cards less one for each trick it
    /// has played into; and the cards in the hands and in the tricks are the 52
    /// cards of the pack, each once.
    pub open spec fn wf(&self) -> bool {
        &&& self.wf_so_far()
        &&& (1 <= self.tricks().len() < 13 ==> !self.tricks().last().is_full())
    }

    /// A round in which nothing was done yet: no bid, no trick, and four
    /// hands as they were dealt.
    pub open spec fn is_fresh(&self, starter: Turn) -> bool {
        &&& self.wf()
        &&& self.starter() == starter
        &&& self.tricks().len() == 0
        &&& forall|seat: int| 0 <= seat < 4 ==> self.call_of(seat) is None
        &&& forall|seat: int| 0 <= seat < 4 ==> valid_deal(#[trigger] self.hand(seat)) && laid_out(self.hand(seat))
    }

    /// What `call` answers to a seat: the bid is taken from the seat whose turn
    /// it is while the round is in its bidding, and no other.
    pub open spec fn call_answer(&self, seat: int) -> Result<(), Error> {
        if self.stage() != State::Calling {
            Err(Error::NotAcceptingCalls)
        } else if seat == self.acting_seat() {
            Ok(())
        } else if self.call_of(seat) is Some {
            Err(Error::PlayerAlreadyCalled)
        } else {
            Err(Error::NotYourTurn)
        }
    }

    /// What `play` answers to a seat that offers a card: the card is taken
    /// from the seat whose turn it is while a trick is in progress, if it is one
    /// of the cards that the seat may play.
    pub open spec fn play_answer(&self, card: Card, seat: int) -> Result<(), Error> {
        if self.stage() != State::TrickInProgress {
            Err(Error::NotAcceptingPlay)
        } else if seat != self.acting_seat() {
            Err(Error::NotYourTurn)
        } else if !self.tricks().last().legal_moves(self.hand(seat)).contains(card) {
            Err(Error::InvalidPlay)
        } else {
            Ok(())
        }
    }

    /// Nothing but the bid of one seat differs between two rounds.
    pub open spec fn same_but_call(&self, other: &Round, seat: int) -> bool {
        &&& self.starter() == other.starter()
        &&& forall|s: int| 0 <= s < 4 ==> self.hand(s) == other.hand(s)
        &&& forall|s: int| 0 <= s < 4 && s != seat ==> self.call_of(s) == other.call_of(s)
    }

    /// Nothing but the hand of one seat and the tricks differs between two
    /// rounds.
    pub open spec fn same_but_play(&self, other: &Round, seat: int) -> bool {
        &&& self.starter() == other.starter()
        &&& forall|s: int| 0 <= s < 4 ==> self.call_of(s) == other.call_of(s)
        &&& forall|s: int| 0 <= s < 4 && s != seat ==> self.hand(s) == other.hand(s)
    }

    /// This round is what `before` becomes when a seat offers a bid: the same
    /// round where the bid is refused; else the round with the bid of that
    /// seat set, and with it, if it is the fourth bid, the first trick, empty
    /// and led by the starter.
    pub open spec fn follows_call(&self, before: &Round, seat: int, call: Call) -> bool {
        if before.call_answer(seat) is Err {
            *self == *before
        } else {
            &&& self.same_but_call(before, seat)
            &&& self.call_of(seat) == Some(call)
            &&& self.calls_made() == before.calls_made() + 1
            &&& self.progress() == before.progress() + 1
            &&& if before.calls_made() == 3 {
                &&& self.tricks().len() == 1
                &&& self.tricks()[0].played() == 0
                &&& self.stage() == State::TrickInProgress
            } else {
                &&& self.tricks().len() == 0
                &&& self.stage() == State::Calling
            }
        }
    }

    /// This round is what `before` becomes when a seat offers a card: the same
    /// round where the card is refused; else the round with the card moved
    /// from the hand of that seat into the trick in progress, and after it, if
    /// that fills a trick before the thirteenth, a new trick, empty and led by
    /// the winner of the one filled.
    pub open spec fn follows_play(&self, before: &Round, seat: int, card: Card) -> bool {
        if before.play_answer(card, seat) is Err {
            *self == *before
        } else {
            let k = before.tricks().len() - 1;
            &&& self.same_but_play(before, seat)
            &&& self.hand(seat) == before.hand(seat).remove_value(card)
            &&& self.progress() == before.progress() + 1
            &&& self.tricks().len() >= k + 1
            &&& forall|j: int| 0 <= j < k ==> self.tricks()[j] == before.tricks()[j]
            &&& self.tricks()[k].starter_turn() == before.tricks()[k].starter_turn()
            &&& self.tricks()[k].slot(seat) == Some(card)
            &&& forall|s: int| 0 <= s < 4 && s != seat ==> self.tricks()[k].slot(s) == before.tricks()[k].slot(s)
            &&& if self.tricks()[k].is_full() && k < 12 {
                &&& self.tricks().len() == k + 2
                &&& self.tricks()[k + 1].played() == 0
                &&& self.tricks()[k].is_winner(self.tricks()[k + 1].starter_seat())
            } else {
                self.tricks().len() == k + 1
            }
        }
    }

    /// Deals a round from shuffled decks. A deal in which some hand is not
    /// valid is thrown away and a new deck is dealt, up to `MAX_DEALS` times;
    /// after that many failures the answer is `ImpossibleCondition`.
    ///
    /// Every hand of the round has thirteen different cards, a Spade and a
    /// face card among them, and the four hands together are the 52 cards.
    pub fn new(starter: Turn) -> (result: Result<Round, Error>)
        ensures
            match result {
                Ok(round) => round.is_fresh(starter),
                Err(e) => e == Error::ImpossibleCondition,
            },
    {
        let mut attempt: usize = 0;
        while attempt < MAX_DEALS
            decreases MAX_DEALS - attempt,
        {
            let deck = Deck::new();
            match Round::deal(starter, &deck) {
                Ok(round) => {
                    return Ok(round);
                },
                Err(_) => {},
            }
            attempt += 1;
        }
        Err(Error::ImpossibleCondition)
    }

    /// Deals the 52 cards of a deck as they lie: the first thirteen to seat 0,
    /// the next thirteen to seat 1, and so on. The deal is refused with the
    /// error of the first seat whose cards are no valid hand.
    pub fn deal(starter: Turn, deck: &Deck) -> (result: Result<Round, Error>)
        requires
            deck.wf(),
        ensures
            match result {
                Ok(round) => {
                    &&& first_deal_error(deck.cards()) is None
                    &&& round.is_fresh(starter)
                    &&& forall|seat: int|
                        0 <= seat < 4 ==> (#[trigger] round.hand(seat)).to_multiset() == share(
                            deck.cards(),
                            seat,
                        ).to_multiset()
                },
                Err(e) => first_deal_error(deck.cards()) == Some(e),
            },
    {
        proof {
            use_type_invariant(&starter);
            deck.lemma_full_pack();
        }
        let cards = deck.as_slice();
        let mut hands: Vec<Hand> = Vec::new();
        let mut i: usize = 0;
        while i < 4
            invariant
                i <= 4,
                cards@.len() == 52,
                cards@ == deck.cards(),
                hands@.len() == i,
                forall|seat: int|
                    0 <= seat < i ==> {
                        &&& deal_error(#[trigger] share(cards@, seat)) is None
                        &&& hands@[seat]@.to_multiset() == share(cards@, seat).to_multiset()
                        &&& valid_deal(hands@[seat]@)
                        &&& laid_out(hands@[seat]@)
                    },
            decreases 4 - i,
        {
            let part = &cards[i * 13..(i + 1) * 13];
            assert(part@ =~= share(cards@, i as int));
            match Hand::try_from(part) {
                Ok(hand) => {
                    hands.push(hand);
                },
                Err(e) => {
                    return Err(e);
                },
            }
            i += 1;
        }
        let round = Round { starter, hands, calls: [None;4], tricks: Vec::new() };
        assert(forall|seat: int| 0 <= seat < 4 ==> deal_error(#[trigger] share(cards@, seat)) is None);
        assert forall|seat: int| 0 <= seat < 4 implies valid_deal(#[trigger] round.hand(seat)) && laid_out(
            round.hand(seat),
        ) && round.hand(seat).to_multiset() == share(cards@, seat).to_multiset() by {
            assert(deal_error(share(cards@, seat)) is None);
        }
        proof {
            lemma_shares_make_deck(cards@, round.hand(0), round.hand(1), round.hand(2), round.hand(3));
            assert(round.all_cards() =~= cards@.to_multiset()) by {
                broadcast use vstd::multiset::group_multiset_axioms;

            }
        }
        Ok(round)
    }

    /// Where the round stands.
    pub fn state(&self) -> (state: State)
        requires
            self.wf(),
        ensures
            state == self.stage(),
    {
        if self.calls[0].is_none() || self.calls[1].is_none() || self.calls[2].is_none() || self.calls[3].is_none() {
            State::Calling
        } else if self.tricks.len() == 13 && self.tricks[12].is_over() {
            State::Over
        } else {
            State::TrickInProgress
        }
    }

    /// Takes the bid of a seat. The seats bid in their order from the starter
    /// on, each once; the fourth bid opens the first trick, which the starter
    /// leads.
    pub fn call(&mut self, call: Call, turn: Turn) -> (result: Result<(), Error>)
        requires
            old(self).wf(),
        ensures
            final(self).wf(),
            result == old(self).call_answer(turn.seat()),
            final(self).follows_call(old(self), turn.seat(), call),
    {
        proof {
            use_type_invariant(&turn);
            use_type_invariant(&call);
        }
        match self.state() {
            State::Calling => {
                let next = match self.turn() {
                    Ok(next) => next,
                    Err(e) => {
                        return Err(e);
                    },
                };
                if next.index() != turn.index() {
                    if self.calls[turn.index()].is_some() {
                        return Err(Error::PlayerAlreadyCalled);
                    }
                    return Err(Error::NotYourTurn);
                }
                self.calls[turn.index()] = Some(call);
                if turn.next().index() == self.starter.index() {
                    self.tricks.push(Trick::new(self.starter));
                }
                proof {
                    assert forall|seat: int| 0 <= seat < 4 implies (#[trigger] self.hand(seat)) == old(self).hand(
                        seat,
                    ) by {}
                    assert(self.all_cards() =~= old(self).all_cards()) by {
                        broadcast use vstd::multiset::group_multiset_axioms;

                        if self.tricks().len() == 1 {
                            assert(self.tricks().drop_last() =~= old(self).tricks());
                        }
                    }
                }
                Ok(())
            },
            _ => Err(Error::NotAcceptingCalls),
        }
    }

    /// The seat whose turn it is to bid or to play.
    pub fn turn(&self) -> (result: Result<Turn, Error>)
        requires
            self.wf(),
        ensures
            match result {
                Ok(turn) => self.stage() != State::Over && turn.wf() && turn.seat() == self.acting_seat(),
                Err(e) => self.stage() == State::Over && e == Error::RoundIsOver,
            },
    {
        match self.state() {
            State::Calling => {
                let mut next = self.starter;
                let mut steps: usize = 0;
                while self.calls[next.index()].is_some()
                    invariant
                        self.wf(),
                        self.calls_made() < 4,
                        next.wf(),
                        0 <= steps <= self.calls_made(),
                        next.seat() == seat_after(self.starter().seat(), steps as int),
                    decreases 4 - steps,
                {
                    next = next.next();
                    steps += 1;
                }
                Ok(next)
            },
            State::TrickInProgress => {
                let slot = self.tricks.len() - 1;
                self.tricks[slot].turn()
            },
            State::Over => Err(Error::RoundIsOver),
        }
    }

    /// Whether the thirteenth trick is full.
    pub fn is_over(&self) -> (over: bool)
        requires
            self.wf(),
        ensures
            over == (self.stage() == State::Over),
    {
        self.state() == State::Over
    }

    /// Moves a card from the hand of a seat into the trick in progress. A trick
    /// that this fills is followed by a new one, which its winner leads, unless
    /// it is the thirteenth: then the round is over.
    pub fn play(&mut self, card: Card, turn: Turn) -> (result: Result<(), Error>)
        requires
            old(self).wf(),
        ensures
            final(self).wf(),
            result == old(self).play_answer(card, turn.seat()),
            final(self).follows_play(old(self), turn.seat(), card),
    {
        match self.state() {
            State::TrickInProgress => {
                let slot = self.tricks.len() - 1;
                let next = match self.tricks[slot].turn() {
                    Ok(next) => next,
                    Err(e) => {
                        return Err(e);
                    },
                };
                if turn.index() != next.index() {
                    return Err(Error::NotYourTurn);
                }
                let moves = self.tricks[slot].valid_play_from(&self.hands[turn.index()]);
                if !holds(moves.as_slice(), card) {
                    return Err(Error::InvalidPlay);
                }
                proof {
                    self.tricks()[slot as int].lemma_legal_moves_in_hand(self.hand(turn.seat()), card);
                }
                let ghost k = slot as int;
                self.lay(card, turn);
                let ghost laid = *self;
                self.open_next();
                proof {
                    assert(laid.tricks()[k] == laid.tricks().last());
                    if laid.tricks().last().is_full() && k < 12 {
                        assert(self.tricks().drop_last()[k] == self.tricks()[k]);
                        assert forall|j: int| 0 <= j < k implies self.tricks()[j] == old(self).tricks()[j] by {
                            assert(self.tricks().drop_last()[j] == self.tricks()[j]);
                        }
                    }
                }
                Ok(())
            },
            _ => Err(Error::NotAcceptingPlay),
        }
    }

    /// Moves a card that the acting seat holds from its hand into the trick in
    /// progress.
    fn lay(&mut self, card: Card, turn: Turn)
        requires
            old(self).wf(),
            old(self).stage() == State::TrickInProgress,
            turn.seat() == old(self).acting_seat(),
            old(self).hand(turn.seat()).contains(card),
        ensures
            final(self).wf_so_far(),
            final(self).same_but_play(old(self), turn.seat()),
            final(self).hand(turn.seat()) == old(self).hand(turn.seat()).remove_value(card),
            final(self).progress() == old(self).progress() + 1,
            final(self).tricks() == old(self).tricks().update(
                old(self).tricks().len() - 1,
                final(self).tricks().last(),
            ),
            final(self).tricks().last().starter_turn() == old(self).tricks().last().starter_turn(),
            final(self).tricks().last().slot(turn.seat()) == Some(card),
            forall|s: int|
                0 <= s < 4 && s != turn.seat() ==> final(self).tricks().last().slot(s) == old(self).tricks().last().slot(
                    s,
                ),
    {
        let slot = self.tricks.len() - 1;
        let seat = turn.index();
        let ghost before = *self;
        let _ = self.hands[seat].play(card);
        let ghost held = *self;
        assert(held.tricks() == before.tricks());
        assert(held.hand(seat as int) == before.hand(seat as int).remove_value(card));
        assert(forall|s: int| 0 <= s < 4 && s != seat ==> held.hand(s) == before.hand(s));
        let _ = self.tricks[slot].play(card);
        assert(forall|s: int| 0 <= s < 4 ==> self.hand(s) == held.hand(s));
        assert(self.tricks() == before.tricks().update(slot as int, self.tricks()[slot as int]));
        proof {
            lemma_card_laid(before, *self, seat as int, card);
        }
    }

    /// Opens the next trick, which the winner of the last one leads, where the
    /// last trick is full and is not the thirteenth.
    fn open_next(&mut self)
        requires
            old(self).wf_so_far(),
            old(self).tricks().len() >= 1,
        ensures
            final(self).wf(),
            final(self).starter() == old(self).starter(),
            forall|s: int| 0 <= s < 4 ==> final(self).hand(s) == old(self).hand(s),
            forall|s: int| 0 <= s < 4 ==> final(self).call_of(s) == old(self).call_of(s),
            final(self).progress() == old(self).progress(),
            if old(self).tricks().last().is_full() && old(self).tricks().len() < 13 {
                &&& final(self).tricks().len() == old(self).tricks().len() + 1
                &&& final(self).tricks().drop_last() == old(self).tricks()
                &&& final(self).tricks().last().played() == 0
                &&& old(self).tricks().last().is_winner(final(self).tricks().last().starter_seat())
            } else {
                final(self).tricks() == old(self).tricks()
            },
    {
        let slot = self.tricks.len() - 1;
        if slot != 12 && self.tricks[slot].is_over() {
            match self.tricks[slot].winner() {
                Some((winner, _)) => {
                    self.tricks.push(Trick::new(winner));
                    proof {
                        assert(self.tricks().drop_last() =~= old(self).tricks());
                        lemma_trick_opened(*old(self), *self);
                    }
                },
                None => {
                    proof {
                        assert(old(self).tricks().last().wf());
                    }
                },
            }
        }
    }

    /// The cards that a seat may play, for the seat whose turn it is to play.
    pub fn get_valid_moves(&self, turn: Turn) -> (result: Result<Vec<Card>, Error>)
        requires
            self.wf(),
        ensures
            match result {
                Ok(moves) => {
                    &&& self.stage() == State::TrickInProgress
                    &&& turn.seat() == self.acting_seat()
                    &&& moves@ == self.tricks().last().legal_moves(self.hand(turn.seat()))
                },
                Err(e) => if self.stage() != State::TrickInProgress {
                    e == Error::NotAcceptingPlay
                } else {
                    turn.seat() != self.acting_seat() && e == Error::NotYourTurn
                },
            },
    {
        match self.state() {
            State::TrickInProgress => {
                let slot = self.tricks.len() - 1;
                let next = match self.tricks[slot].turn() {
                    Ok(next) => next,
                    Err(e) => {
                        return Err(e);
                    },
                };
                if turn.index() != next.index() {
                    return Err(Error::NotYourTurn);
                }
                Ok(self.tricks[slot].valid_play_from(&self.hands[turn.index()]))
            },
            _ => Err(Error::NotAcceptingPlay),
        }
    }

    /// A copy of the hand of a seat.
    pub fn get_hand(&self, turn: Turn) -> (hand: Hand)
        requires
            self.wf(),
        ensures
            hand@ == self.hand(turn.seat()),
            hand.wf(),
    {
        proof {
            use_type_invariant(&turn);
        }
        assert(self.hand(turn.seat()).len() <= 13);
        self.hands[turn.index()].copy()
    }

    /// The bids of the four seats, as far as they were made.
    pub fn get_calls(&self) -> (calls: [Option<Call>; 4])
        ensures
            forall|seat: int| 0 <= seat < 4 ==> calls@[seat] == self.call_of(seat),
    {
        self.calls
    }

    /// The tricks of the round, the one in progress last.
    pub fn get_tricks(&self) -> (tricks: Vec<Trick>)
        ensures
            tricks@ == self.tricks(),
    {
        let mut tricks: Vec<Trick> = Vec::new();
        let mut i: usize = 0;
        while i < self.tricks.len()
            invariant
                i <= self.tricks@.len(),
                tricks@ == self.tricks@.take(i as int),
            decreases self.tricks@.len() - i,
        {
            tricks.push(self.tricks[i]);
            assert(self.tricks@.take(i as int + 1) =~= self.tricks@.take(i as int).push(self.tricks@[i as int]));
            i += 1;
        }
        assert(self.tricks@.take(self.tricks@.len() as int) =~= self.tricks@);
        tricks
    }
}

impl Round {
    /// A round is made of 56 steps, four bids and 52 cards: it is in its
    /// bidding for the first four and over after the last.
    pub proof fn lemma_progress(&self)
        requires
            self.wf(),
        ensures
            0 <= self.progress() <= 56,
            self.stage() == State::Calling <==> self.progress() < 4,
            self.stage() == State::Over <==> self.progress() == 56,
    {
        if self.tricks().len() > 0 {
            assert(self.tricks().last().wf());
        }
    }

    /// A round never goes back: one that has come as far as another, or
    /// farther, is not in an earlier stage.
    pub proof fn lemma_no_way_back(&self, later: &Round)
        requires
            self.wf(),
            later.wf(),
            self.progress() <= later.progress(),
        ensures
            self.stage() == State::Over ==> later.stage() == State::Over,
            self.stage() == State::TrickInProgress ==> later.stage() != State::Calling,
    {
        self.lemma_progress();
        later.lemma_progress();
    }

    /// When a round is over, thirteen tricks were played and every hand is
    /// empty.
    pub proof fn lemma_over_is_spent(&self, seat: int)
        requires
            self.wf(),
            self.stage() == State::Over,
            0 <= seat < 4,
        ensures
            self.tricks().len() == 13,
            self.hand(seat).len() == 0,
            self.tricks_joined(seat) == 13,
    {
        assert(self.hand(seat).len() == 13 - self.tricks_joined(seat));
        assert(self.tricks().last().wf());
    }

    /// While a round is in play, the seat whose turn it is holds a card, and
    /// so has a card that it may play.
    pub proof fn lemma_can_play(&self)
        requires
            self.wf(),
            self.stage() == State::TrickInProgress,
        ensures
            0 <= self.acting_seat() < 4,
            self.hand(self.acting_seat()).len() > 0,
            self.tricks().last().legal_moves(self.hand(self.acting_seat())).len() > 0,
            self.play_answer(self.tricks().last().legal_moves(self.hand(self.acting_seat()))[0], self.acting_seat())
                is Ok,
    {
        let trick = self.tricks().last();
        let seat = self.acting_seat();
        assert(trick.wf());
        assert(self.starter().wf());
        assert(trick.slot(seat) is None);
        assert(self.hand(seat).len() == 13 - self.tricks_joined(seat));
        trick.lemma_legal_moves_not_empty(self.hand(seat));
    }

    /// The seats bid in their order from the starter on: while the round is
    /// in its bidding, the seat to bid is as many seats after the starter as
    /// bids were made.
    pub proof fn lemma_bidding_order(&self)
        requires
            self.wf(),
            self.stage() == State::Calling,
        ensures
            self.acting_seat() == seat_after(self.starter().seat(), self.calls_made()),
            self.call_of(self.acting_seat()) is None,
            0 <= self.acting_seat() < 4,
    {
    }

    /// The starter of the round leads the first trick, and the winner of a
    /// trick leads the next.
    pub proof fn lemma_leads(&self, k: int)
        requires
            self.wf(),
            0 <= k < self.tricks().len(),
        ensures
            k == 0 ==> self.tricks()[k].starter_turn() == self.starter(),
            k > 0 ==> self.tricks()[k - 1].is_winner(self.tricks()[k].starter_seat()),
    {
        if k > 0 {
            assert(self.tricks()[k - 1].is_winner(self.tricks()[k - 1 + 1].starter_seat()));
        }
    }

    /// Every card is in the round once: in one of the hands, or in one of the
    /// tricks.
    pub proof fn lemma_every_card_once(&self, card: Card)
        requires
            self.wf(),
        ensures
            self.all_cards().count(card) == 1,
    {
        lemma_standard_complete(card);
        lemma_standard_distinct();
        standard().lemma_multiset_has_no_duplicates();
        to_multiset_contains(standard(), card);
    }

    /// No card lies twice in a trick of the round, so that the trick has a
    /// clear winner.
    pub proof fn lemma_tricks_all_different(&self, k: int)
        requires
            self.wf(),
            0 <= k < self.tricks().len(),
        ensures
            self.tricks()[k].all_different(),
    {
        broadcast use vstd::multiset::group_multiset_axioms;

        let trick = self.tricks()[k];
        assert forall|a: int, b: int|
            0 <= a < 4 && 0 <= b < 4 && a != b && (#[trigger] trick.slot(a)) is Some implies trick.slot(a)
            != #[trigger] trick.slot(b) by {
            if trick.slot(a) == trick.slot(b) {
                let card = trick.slot(a).unwrap();
                assert(trick.cards().count(card) >= 2);
                lemma_cards_in_count(self.tricks(), k, card);
                self.lemma_every_card_once(card);
            }
        }
    }

    /// A card that a seat holds lies in no trick of the round: nobody can
    /// play a card that was played.
    pub proof fn lemma_held_is_not_played(&self, seat: int, card: Card, k: int, by: int)
        requires
            self.wf(),
            0 <= seat < 4,
            self.hand(seat).contains(card),
            0 <= k < self.tricks().len(),
            0 <= by < 4,
        ensures
            self.tricks()[k].slot(by) != Some(card),
    {
        broadcast use vstd::multiset::group_multiset_axioms;

        if self.tricks()[k].slot(by) == Some(card) {
            assert(self.tricks()[k].cards().count(card) >= 1);
            lemma_cards_in_count(self.tricks(), k, card);
            to_multiset_contains(self.hand(seat), card);
            self.lemma_every_card_once(card);
        }
    }

    /// No two seats hold the same card.
    pub proof fn lemma_hands_apart(&self, seat: int, other: int, card: Card)
        requires
            self.wf(),
            0 <= seat < 4,
            0 <= other < 4,
            seat != other,
            self.hand(seat).contains(card),
        ensures
            !self.hand(other).contains(card),
    {
        broadcast use vstd::multiset::group_multiset_axioms;

        if self.hand(other).contains(card) {
            to_multiset_contains(self.hand(seat), card);
            to_multiset_contains(self.hand(other), card);
            self.lemma_every_card_once(card);
        }
    }

    /// Once a round is over it takes no bid and no card, and stays as it is.
    pub proof fn lemma_over_is_final(&self, seat: int, card: Card)
        requires
            self.stage() == State::Over,
        ensures
            self.call_answer(seat) == Err::<(), Error>(Error::NotAcceptingCalls),
            self.play_answer(card, seat) == Err::<(), Error>(Error::NotAcceptingPlay),
    {
    }
}

/// The number of a round within a game: 0 for the first, 4 for the fifth.
#[derive(Debug, PartialEq, Eq, Structural, PartialOrd, Ord, Clone, Copy)]
pub struct RoundId(usize);

impl RoundId {
    /// The number of the round.
    pub closed spec fn number(self) -> int {
        self.0 as int
    }

    /// A game has the rounds 0 to 4.
    pub open spec fn wf(self) -> bool {
        0 <= self.number() < 5
    }

    pub fn new(value: usize) -> (result: Result<Self, Error>)
        ensures
            match result {
                Ok(id) => value < 5 && id.number() == value && id.wf(),
                Err(e) => value >= 5 && e == Error::InvalidRoundId,
            },
    {
        if value < 5 {
            Ok(RoundId(value))
        } else {
            Err(Error::InvalidRoundId)
        }
    }

    /// The number that comes after that of the last round: it names no round.
    pub fn max() -> (id: Self)
        ensures
            id.number() == 5,
    {
        RoundId(5)
    }

    /// The number of the round, to index what is kept round by round.
    pub fn index(&self) -> (index: usize)
        ensures
            index == self.number(),
    {
        self.0
    }
}

/// A card that the acting seat plays from its hand into the trick in
/// progress leaves the round in order, up to the opening of the next trick.
proof fn lemma_card_laid(before: Round, after: Round, seat: int, card: Card)
    requires
        before.wf(),
        before.stage() == State::TrickInProgress,
        seat == before.acting_seat(),
        after.same_but_play(&before, seat),
        after.hands_kept() == 4,
        before.hand(seat).contains(card),
        after.hand(seat) == before.hand(seat).remove_value(card),
        after.hand(seat).no_duplicates(),
        after.hand(seat).len() == before.hand(seat).len() - 1,
        after.tricks() == before.tricks().update(before.tricks().len() - 1, after.tricks().last()),
        after.tricks().last().wf(),
        after.tricks().last().starter_turn() == before.tricks().last().starter_turn(),
        after.tricks().last().played() == before.tricks().last().played() + 1,
        after.tricks().last().slot(seat) == Some(card),
        forall|s: int| 0 <= s < 4 && s != seat ==> after.tricks().last().slot(s) == before.tricks().last().slot(s),
    ensures
        after.wf_so_far(),
        after.progress() == before.progress() + 1,
        0 <= seat < 4,
{
    assert(before.tricks().last().wf());
    assert(before.tricks().last().slot(seat) is None);
    assert(after.bids_in_order());
    lemma_laid_keeps_tricks(before, after);
    lemma_laid_keeps_pack(before, after, seat, card);
    assert(after.hands_fit()) by {
        assert forall|s: int| 0 <= s < 4 implies (#[trigger] after.hand(s)).no_duplicates() && after.hand(s).len()
            == 13 - after.tricks_joined(s) by {
            assert(before.hand(s).no_duplicates());
        }
    }
}

/// The tricks stay in order when the last of them takes a card.
proof fn lemma_laid_keeps_tricks(before: Round, after: Round)
    requires
        before.tricks_in_order(),
        before.tricks().len() > 0,
        after.starter() == before.starter(),
        after.tricks() == before.tricks().update(before.tricks().len() - 1, after.tricks().last()),
        after.tricks().last().wf(),
        after.tricks().last().starter_turn() == before.tricks().last().starter_turn(),
    ensures
        after.tricks_in_order(),
{
    let n = before.tricks().len() as int;
    assert forall|k: int| 0 <= k < after.tricks().len() implies (#[trigger] after.tricks()[k]).wf() by {
        if k < n - 1 {
            assert(before.tricks()[k].wf());
        }
    }
    assert forall|k: int| 0 <= k < after.tricks().len() - 1 implies (#[trigger] after.tricks()[k]).is_full() by {
        assert(before.tricks()[k].is_full());
    }
    assert forall|k: int| 0 <= k < after.tricks().len() - 1 implies (#[trigger] after.tricks()[k]).is_winner(
        after.tricks()[k + 1].starter_seat(),
    ) by {
        assert(before.tricks()[k].is_winner(before.tricks()[k + 1].starter_seat()));
    }
    if n >= 2 {
        assert(after.tricks()[0] == before.tricks()[0]);
    }
}

/// The cards of the round are the same cards when one of them goes from a
/// hand into the trick in progress.
proof fn lemma_laid_keeps_pack(before: Round, after: Round, seat: int, card: Card)
    requires
        before.whole_pack(),
        0 <= seat < 4,
        before.tricks().len() > 0,
        forall|s: int| 0 <= s < 4 && s != seat ==> after.hand(s) == before.hand(s),
        before.hand(seat).contains(card),
        after.hand(seat) == before.hand(seat).remove_value(card),
        after.tricks() == before.tricks().update(before.tricks().len() - 1, after.tricks().last()),
        before.tricks().last().slot(seat) is None,
        after.tricks().last().slot(seat) == Some(card),
        forall|s: int| 0 <= s < 4 && s != seat ==> after.tricks().last().slot(s) == before.tricks().last().slot(s),
    ensures
        after.whole_pack(),
{
    broadcast use vstd::multiset::group_multiset_axioms;

    lemma_card_moves(before, after, seat, card);
    assert(after.tricks().drop_last() =~= before.tricks().drop_last());
    assert(cards_in(after.tricks()) =~= cards_in(before.tricks()).insert(card));
    assert(after.hand(0) == before.hand(0) || seat == 0);
    assert(after.hand(1) == before.hand(1) || seat == 1);
    assert(after.hand(2) == before.hand(2) || seat == 2);
    assert(after.hand(3) == before.hand(3) || seat == 3);
    assert(after.all_cards() =~= before.all_cards());
}

/// A new trick that the winner of a full trick leads, opened after a trick
/// before the thirteenth, leaves the round as it has to be.
proof fn lemma_trick_opened(laid: Round, after: Round)
    requires
        laid.wf_so_far(),
        1 <= laid.tricks().len() < 13,
        laid.tricks().last().is_full(),
        after.starter() == laid.starter(),
        after.hands_kept() == 4,
        forall|s: int| 0 <= s < 4 ==> after.hand(s) == laid.hand(s),
        forall|s: int| 0 <= s < 4 ==> after.call_of(s) == laid.call_of(s),
        after.tricks().len() == laid.tricks().len() + 1,
        after.tricks().drop_last() == laid.tricks(),
        after.tricks().last().wf(),
        after.tricks().last().played() == 0,
        forall|s: int| 0 <= s < 4 ==> after.tricks().last().slot(s) is None,
        laid.tricks().last().is_winner(after.tricks().last().starter_seat()),
    ensures
        after.wf(),
        after.progress() == laid.progress(),
{
    let n = laid.tricks().len() as int;
    assert(laid.tricks().last().wf());
    assert forall|k: int| 0 <= k < n implies after.tricks()[k] == laid.tricks()[k] by {
        assert(after.tricks().drop_last()[k] == after.tricks()[k]);
    }
    assert(after.bids_in_order());
    assert(after.tricks_in_order()) by {
        assert forall|k: int| 0 <= k < after.tricks().len() implies (#[trigger] after.tricks()[k]).wf() by {
            if k < n {
                assert(laid.tricks()[k].wf());
            }
        }
        assert forall|k: int| 0 <= k < after.tricks().len() - 1 implies (#[trigger] after.tricks()[k]).is_full() by {
            if k < n - 1 {
                assert(laid.tricks()[k].is_full());
            }
        }
        assert forall|k: int| 0 <= k < after.tricks().len() - 1 implies (#[trigger] after.tricks()[k]).is_winner(
            after.tricks()[k + 1].starter_seat(),
        ) by {
            if k < n - 1 {
                assert(laid.tricks()[k].is_winner(laid.tricks()[k + 1].starter_seat()));
            }
        }
        assert(after.tricks()[0] == laid.tricks()[0]);
    }
    assert(after.hands_fit()) by {
        assert forall|s: int| 0 <= s < 4 implies (#[trigger] after.hand(s)).no_duplicates() && after.hand(s).len()
            == 13 - after.tricks_joined(s) by {
            assert(laid.hand(s).no_duplicates());
            assert(laid.tricks().last().slot(s) is Some);
        }
    }
    assert(after.whole_pack()) by {
        broadcast use vstd::multiset::group_multiset_axioms;

        assert(after.tricks().last().cards() =~= Multiset::empty());
        assert(cards_in(after.tricks()) =~= cards_in(laid.tricks()));
        assert(after.all_cards() =~= laid.all_cards());
    }
}

/// A card that goes from a hand into the trick in progress leaves the hand
/// one card poorer and the trick one card richer.
proof fn lemma_card_moves(before: Round, after: Round, seat: int, card: Card)
    requires
        0 <= seat < 4,
        before.tricks().len() > 0,
        after.tricks().len() == before.tricks().len(),
        before.hand(seat).contains(card),
        after.hand(seat) == before.hand(seat).remove_value(card),
        before.tricks().last().slot(seat) is None,
        after.tricks().last().slot(seat) == Some(card),
        forall|s: int| 0 <= s < 4 && s != seat ==> after.tricks().last().slot(s) == before.tricks().last().slot(s),
    ensures
        after.hand(seat).to_multiset() == before.hand(seat).to_multiset().remove(card),
        before.hand(seat).to_multiset().count(card) > 0,
        after.tricks().last().cards() == before.tricks().last().cards().insert(card),
{
    broadcast use vstd::multiset::group_multiset_axioms;

    let held = before.hand(seat);
    held.index_of_first_ensures(card);
    let i = held.index_of_first(card).unwrap();
    to_multiset_remove(held, i);
    to_multiset_contains(held, card);
    assert(after.tricks().last().cards() =~= before.tricks().last().cards().insert(card));
}

} // verus!
