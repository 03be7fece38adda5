use callbreak::deck::{Card, Deck, Rank, Suit};
use callbreak::round::State;
use callbreak::{Call, Error, Round, RoundId, Turn};

const RANKS: [Rank; 13] = [
    Rank::Two,
    Rank::Three,
    Rank::Four,
    Rank::Five,
    Rank::Six,
    Rank::Seven,
    Rank::Eight,
    Rank::Nine,
    Rank::Ten,
    Rank::Jack,
    Rank::Queen,
    Rank::King,
    Rank::Ace,
];

const SUITS: [Suit; 4] = [Suit::Clubs, Suit::Diamonds, Suit::Hearts, Suit::Spades];

fn random_turn() -> Turn {
    Turn::new(rand::random_range(0..=3))
}

/// The cards of a deck in which seat `s` gets, of each rank `r`, the card of
/// suit `s + r`.
fn rigged_cards() -> Vec<Card> {
    let mut cards = vec![];
    for seat in 0..4 {
        for rank in 0..13 {
            cards.push(Card::new(RANKS[rank], SUITS[(seat + rank) % 4]));
        }
    }
    cards
}

fn rigged_deck() -> Deck {
    Deck::from_cards(rigged_cards().as_slice()).unwrap()
}

/// A deck in which seat `s` gets the whole suit `s`.
fn suit_by_suit() -> Deck {
    let mut cards = vec![];
    for suit in SUITS {
        for rank in RANKS {
            cards.push(Card::new(rank, suit));
        }
    }
    Deck::from_cards(cards.as_slice()).unwrap()
}

fn called(starter: Turn) -> Round {
    let mut round = Round::deal(starter, &rigged_deck()).unwrap();
    let mut turn = starter;
    for _ in 0..4 {
        round.call(Call::new(3).unwrap(), turn).unwrap();
        turn = turn.next();
    }
    round
}

#[test]
fn round_must_err_when_play_before_call() {
    let starter = random_turn();
    let round = Round::new(starter).unwrap();
    let turn = round.turn().unwrap();
    let action = round.get_valid_moves(turn);
    assert!(action.is_err())
}

#[test]
fn round_must_be_able_to_call_on_new_round() {
    let mut starter = random_turn();
    let mut round = Round::new(starter).unwrap();
    for _ in 0..=3 {
        round.call(Call::new(1).unwrap(), starter).unwrap();
        starter = starter.next()
    }
}

#[test]
fn round_must_err_on_more_than_4_calls() {
    let mut starter = random_turn();
    let mut round = Round::new(starter).unwrap();
    for _ in 0..=3 {
        round.call(Call::new(1).unwrap(), starter).unwrap();
        starter = starter.next()
    }
    let action = round.call(Call::new(1).unwrap(), starter);
    assert!(action.is_err())
}

#[test]
fn round_must_err_on_call_out_of_turn() {
    let starter = random_turn();
    let mut round = Round::new(starter).unwrap();

    let action = round.call(Call::new(1).unwrap(), starter.next());
    assert!(action.is_err());

    round.call(Call::new(1).unwrap(), starter).unwrap();
    let action = round.call(Call::new(1).unwrap(), starter.next());
    assert!(action.is_ok())
}

#[test]
fn must_be_able_to_play_till_end() {
    let mut starter = random_turn();
    let mut round = Round::new(starter).unwrap();

    for _ in 0..4 {
        round.call(Call::new(3).unwrap(), starter).unwrap();
        starter = starter.next();
    }

    for _trick in 0..13 {
        for _turn in 0..4 {
            let turn = round.turn().unwrap();
            let moves = round.get_valid_moves(turn).unwrap();
            round.play(*moves.first().unwrap(), turn).unwrap();
        }
    }
}

#[test]
fn a_full_round_ends_with_thirteen_tricks_and_empty_hands() {
    let mut starter = random_turn();
    let mut round = Round::new(starter).unwrap();
    assert_eq!(round.state(), State::Calling);
    for _ in 0..4 {
        assert!(!round.is_over());
        round.call(Call::new(3).unwrap(), starter).unwrap();
        starter = starter.next();
    }
    for trick in 0..13 {
        for played in 0..4 {
            assert_eq!(round.state(), State::TrickInProgress);
            assert_eq!(round.get_tricks().len(), trick + 1);
            let turn = round.turn().unwrap();
            let before = round.get_hand(turn).len();
            let moves = round.get_valid_moves(turn).unwrap();
            round.play(moves[0], turn).unwrap();
            assert_eq!(round.get_hand(turn).len(), before - 1);
            assert!(!round.get_hand(turn).contains(moves[0]));
            if trick < 12 || played < 3 {
                assert!(!round.is_over());
            }
        }
    }
    assert!(round.is_over());
    assert_eq!(round.state(), State::Over);
    assert_eq!(round.get_tricks().len(), 13);
    for trick in round.get_tricks() {
        assert!(trick.is_over());
    }
    for seat in 0..4 {
        assert!(round.get_hand(Turn::new(seat)).is_empty());
    }
}

#[test]
fn a_round_that_is_over_takes_no_call_and_no_card() {
    let mut round = called(Turn::new(0));
    let mut last = None;
    for _ in 0..52 {
        let turn = round.turn().unwrap();
        let moves = round.get_valid_moves(turn).unwrap();
        round.play(moves[0], turn).unwrap();
        last = Some((moves[0], turn));
    }
    assert!(round.is_over());
    let (card, turn) = last.unwrap();
    assert_eq!(round.turn(), Err(Error::RoundIsOver));
    for seat in 0..4 {
        let seat = Turn::new(seat);
        assert_eq!(round.call(Call::new(1).unwrap(), seat), Err(Error::NotAcceptingCalls));
        assert_eq!(round.play(card, seat), Err(Error::NotAcceptingPlay));
        assert_eq!(round.get_valid_moves(seat).err(), Some(Error::NotAcceptingPlay));
    }
    assert_eq!(round.play(card, turn), Err(Error::NotAcceptingPlay));
    assert!(round.is_over());
    assert_eq!(round.get_tricks().len(), 13);
}

#[test]
fn every_dealt_hand_has_thirteen_cards_a_spade_and_a_face_card() {
    for _ in 0..50 {
        let round = Round::new(random_turn()).unwrap();
        let mut all: Vec<Card> = vec![];
        for seat in 0..4 {
            let hand = round.get_hand(Turn::new(seat));
            assert_eq!(hand.len(), 13);
            assert!(hand.is_valid());
            let cards = hand.to_vec();
            assert!(cards.iter().any(|c| c.get_suit() == Suit::Spades));
            assert!(cards.iter().any(|c| c.get_rank() >= Rank::Jack));
            all.extend(cards);
        }
        assert_eq!(all.len(), 52);
        for i in 0..52 {
            for j in 0..i {
                assert_ne!(all[i], all[j]);
            }
        }
    }
}

#[test]
fn a_deck_is_dealt_thirteen_cards_to_a_seat_as_it_lies() {
    let deck = rigged_deck();
    let round = Round::deal(Turn::new(2), &deck).unwrap();
    for seat in 0..4 {
        let hand = round.get_hand(Turn::new(seat));
        assert_eq!(hand.len(), 13);
        for card in &deck.as_slice()[seat * 13..(seat + 1) * 13] {
            assert!(hand.contains(*card));
        }
    }
    assert_eq!(round.turn(), Ok(Turn::new(2)));
    assert_eq!(round.get_calls(), [None; 4]);
    assert!(round.get_tricks().is_empty());
}

#[test]
fn a_deal_with_a_bad_hand_is_refused_with_the_error_of_the_first_bad_seat() {
    // seat 0 gets the Clubs: a face card, and no Spade
    assert_eq!(Round::deal(Turn::new(0), &suit_by_suit()).err(), Some(Error::RequiresSpades));
    // seat 0 gets a good hand, and seat 1 no card above the Ten
    let mut cards = rigged_cards();
    let mut low = vec![];
    for (i, card) in cards.iter().enumerate() {
        if card.get_rank() < Rank::Jack && i >= 13 {
            low.push(i);
        }
    }
    let mut at = 13;
    for i in low {
        if at < 26 {
            cards.swap(at, i);
            at += 1;
        }
    }
    let deck = Deck::from_cards(cards.as_slice()).unwrap();
    assert_eq!(Round::deal(Turn::new(0), &deck).err(), Some(Error::RequiresFaceCard));
    // seat 0 and seat 1 get good hands, and seat 2 no Spade
    let mut cards = rigged_cards();
    let mut spades = vec![];
    for (i, card) in cards.iter().enumerate() {
        if card.get_suit() == Suit::Spades && (26..39).contains(&i) {
            spades.push(i);
        }
    }
    let mut at = 39;
    for i in spades {
        while cards[at].get_suit() == Suit::Spades {
            at += 1;
        }
        cards.swap(at, i);
    }
    let deck = Deck::from_cards(cards.as_slice()).unwrap();
    assert_eq!(Round::deal(Turn::new(0), &deck).err(), Some(Error::RequiresSpades));
}

#[test]
fn the_seats_call_in_their_order_from_the_starter() {
    for start in 0..4 {
        let starter = Turn::new(start);
        let mut round = Round::deal(starter, &rigged_deck()).unwrap();
        let mut expected = starter;
        for made in 0..4 {
            assert_eq!(round.state(), State::Calling);
            assert_eq!(round.turn(), Ok(expected));
            // nobody else may call
            let mut other = expected.next();
            for _ in 0..3 {
                let refused = round.call(Call::new(2).unwrap(), other);
                let already = round.get_calls()[other.index()].is_some();
                if already {
                    assert_eq!(refused, Err(Error::PlayerAlreadyCalled));
                } else {
                    assert_eq!(refused, Err(Error::NotYourTurn));
                }
                other = other.next();
            }
            let call = Call::new(made as u8 + 1).unwrap();
            assert_eq!(round.call(call, expected), Ok(()));
            assert_eq!(round.get_calls()[expected.index()], Some(call));
            expected = expected.next();
        }
        assert_eq!(round.state(), State::TrickInProgress);
        assert_eq!(round.get_tricks().len(), 1);
        assert_eq!(round.get_tricks()[0].starter().0, starter);
        assert_eq!(round.turn(), Ok(starter));
        assert_eq!(round.call(Call::new(1).unwrap(), starter), Err(Error::NotAcceptingCalls));
    }
}

#[test]
fn a_card_is_refused_before_all_have_called() {
    let mut round = Round::deal(Turn::new(1), &rigged_deck()).unwrap();
    let card = round.get_hand(Turn::new(1)).to_vec()[0];
    assert_eq!(round.play(card, Turn::new(1)), Err(Error::NotAcceptingPlay));
    round.call(Call::new(1).unwrap(), Turn::new(1)).unwrap();
    assert_eq!(round.play(card, Turn::new(1)), Err(Error::NotAcceptingPlay));
    assert_eq!(round.get_valid_moves(Turn::new(2)).err(), Some(Error::NotAcceptingPlay));
    assert_eq!(round.get_hand(Turn::new(1)).len(), 13);
}

#[test]
fn a_card_out_of_turn_is_refused_and_changes_nothing() {
    let mut round = called(Turn::new(1));
    let card = round.get_hand(Turn::new(2)).to_vec()[0];
    assert_eq!(round.play(card, Turn::new(2)), Err(Error::NotYourTurn));
    assert_eq!(round.get_valid_moves(Turn::new(2)).err(), Some(Error::NotYourTurn));
    assert_eq!(round.get_hand(Turn::new(2)).len(), 13);
    assert_eq!(round.turn(), Ok(Turn::new(1)));
    assert_eq!(round.get_tricks()[0].starter().1, None);
}

#[test]
fn an_illegal_card_is_refused_and_changes_nothing() {
    // seat 0 leads the Two of Clubs; seat 1 holds Clubs and must follow
    let mut round = called(Turn::new(0));
    round.play(Card::new(Rank::Two, Suit::Clubs), Turn::new(0)).unwrap();
    let hand = round.get_hand(Turn::new(1)).to_vec();
    let moves = round.get_valid_moves(Turn::new(1)).unwrap();
    assert!(moves.iter().all(|c| c.get_suit() == Suit::Clubs));
    let heart = Card::new(Rank::Three, Suit::Hearts);
    assert!(hand.contains(&heart));
    assert!(!moves.contains(&heart));
    assert_eq!(round.play(heart, Turn::new(1)), Err(Error::InvalidPlay));
    // a card that the seat does not hold at all
    let foreign = Card::new(Rank::Three, Suit::Clubs);
    assert!(!hand.contains(&foreign));
    assert_eq!(round.play(foreign, Turn::new(1)), Err(Error::InvalidPlay));
    // the hand and the trick are as they were
    assert_eq!(round.get_hand(Turn::new(1)).to_vec(), hand);
    assert_eq!(round.turn(), Ok(Turn::new(1)));
    let tricks = round.get_tricks();
    assert_eq!(tricks.len(), 1);
    assert_eq!(tricks[0].card_of(Turn::new(0)), Some(Card::new(Rank::Two, Suit::Clubs)));
    assert_eq!(tricks[0].card_of(Turn::new(1)), None);
    assert_eq!(round.get_valid_moves(Turn::new(1)).unwrap(), moves);
}

#[test]
fn the_winner_of_a_trick_leads_the_next() {
    let mut round = called(random_turn());
    for _ in 0..52 {
        let turn = round.turn().unwrap();
        let moves = round.get_valid_moves(turn).unwrap();
        round.play(moves[0], turn).unwrap();
    }
    let tricks = round.get_tricks();
    assert_eq!(tricks.len(), 13);
    for k in 1..13 {
        let winner = tricks[k - 1].winner().unwrap().0;
        assert_eq!(tricks[k].starter().0, winner);
    }
}

#[test]
fn the_first_card_played_moves_the_turn_to_the_next_seat() {
    for start in 0..4 {
        let starter = Turn::new(start);
        let mut round = called(starter);
        let moves = round.get_valid_moves(starter).unwrap();
        assert_eq!(moves, round.get_hand(starter).to_vec());
        round.play(moves[0], starter).unwrap();
        assert_eq!(round.turn(), Ok(starter.next()));
        assert_eq!(round.get_tricks()[0].turn(), Ok(starter.next()));
        assert_eq!(round.get_tricks()[0].starter(), (starter, Some(moves[0])));
    }
}

#[test]
fn round_id_names_the_five_rounds() {
    for value in 0..5 {
        assert_eq!(RoundId::new(value).unwrap().index(), value);
    }
    assert_eq!(RoundId::new(5).err(), Some(Error::InvalidRoundId));
    assert_eq!(RoundId::new(77).err(), Some(Error::InvalidRoundId));
    assert_eq!(RoundId::max().index(), 5);
    assert!(RoundId::new(4).unwrap() < RoundId::max());
}
