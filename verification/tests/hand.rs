use callbreak::deck::Rank::{
    Ace, Eight, Five, Four, Jack, King, Nine, Queen, Seven, Six, Ten, Three, Two,
};
use callbreak::deck::Suit::{Clubs, Diamonds, Hearts, Spades};
use callbreak::deck::{Card, Suit};
use callbreak::hand::{all_different, holds, lay_out, select};
use callbreak::{Error, Hand};

fn thirteen() -> Vec<Card> {
    vec![
        Card::new(Two, Diamonds),
        Card::new(King, Spades),
        Card::new(Three, Diamonds),
        Card::new(Four, Diamonds),
        Card::new(Queen, Diamonds),
        Card::new(King, Diamonds),
        Card::new(Two, Hearts),
        Card::new(Three, Spades),
        Card::new(Three, Hearts),
        Card::new(Four, Hearts),
        Card::new(Queen, Hearts),
        Card::new(King, Hearts),
        Card::new(Two, Spades),
    ]
}

#[test]
fn thirteen_good_cards_make_a_hand() {
    let cards = thirteen();
    let hand = Hand::try_from(cards.as_slice()).unwrap();
    assert_eq!(hand.len(), 13);
    assert!(hand.is_valid());
    for card in cards {
        assert!(hand.contains(card));
    }
}

#[test]
fn a_dealt_hand_is_laid_out_suit_by_suit_from_the_highest_rank_down() {
    let hand = Hand::try_from(thirteen().as_slice()).unwrap();
    let expected = vec![
        Card::new(King, Diamonds),
        Card::new(Queen, Diamonds),
        Card::new(Four, Diamonds),
        Card::new(Three, Diamonds),
        Card::new(Two, Diamonds),
        Card::new(King, Hearts),
        Card::new(Queen, Hearts),
        Card::new(Four, Hearts),
        Card::new(Three, Hearts),
        Card::new(Two, Hearts),
        Card::new(King, Spades),
        Card::new(Three, Spades),
        Card::new(Two, Spades),
    ];
    assert_eq!(hand.get_cards(), expected.as_slice());
    assert_eq!(hand.to_vec(), expected);
}

#[test]
fn a_hand_without_a_face_card_is_refused() {
    let cards = vec![
        Card::new(Two, Diamonds),
        Card::new(Three, Diamonds),
        Card::new(Four, Diamonds),
        Card::new(Five, Diamonds),
        Card::new(Six, Diamonds),
        Card::new(Seven, Diamonds),
        Card::new(Eight, Diamonds),
        Card::new(Nine, Diamonds),
        Card::new(Ten, Diamonds),
        Card::new(Two, Spades),
        Card::new(Three, Spades),
        Card::new(Four, Spades),
        Card::new(Ten, Spades),
    ];
    assert_eq!(Hand::try_from(cards.as_slice()).err(), Some(Error::RequiresFaceCard));
}

#[test]
fn a_jack_is_face_card_enough() {
    let mut cards = thirteen();
    for card in cards.iter_mut() {
        if card.get_rank() >= Jack {
            *card = Card::new(Five, card.get_suit());
        }
    }
    // all the face cards are gone now, and the fives stand three times
    cards[1] = Card::new(Jack, Spades);
    cards[4] = Card::new(Six, Diamonds);
    cards[5] = Card::new(Seven, Diamonds);
    cards[10] = Card::new(Six, Hearts);
    cards[11] = Card::new(Seven, Hearts);
    assert!(Hand::try_from(cards.as_slice()).is_ok());
    cards[1] = Card::new(Ten, Spades);
    assert_eq!(Hand::try_from(cards.as_slice()).err(), Some(Error::RequiresFaceCard));
}

#[test]
fn a_hand_without_a_spade_is_refused() {
    let mut cards = thirteen();
    cards[1] = Card::new(Ace, Clubs);
    cards[7] = Card::new(Jack, Clubs);
    cards[12] = Card::new(Ten, Clubs);
    assert_eq!(Hand::try_from(cards.as_slice()).err(), Some(Error::RequiresSpades));
}

#[test]
fn a_hand_of_twelve_or_fourteen_cards_is_refused() {
    let mut cards = thirteen();
    cards.pop();
    assert_eq!(Hand::try_from(cards.as_slice()).err(), Some(Error::Not13Cards));
    let mut cards = thirteen();
    cards.push(Card::new(Ace, Clubs));
    assert_eq!(Hand::try_from(cards.as_slice()).err(), Some(Error::Not13Cards));
}

#[test]
fn a_hand_with_a_card_twice_is_refused() {
    let mut cards = thirteen();
    cards[0] = cards[5];
    assert_eq!(Hand::try_from(cards.as_slice()).err(), Some(Error::HasDuplicateCards));
}

#[test]
fn the_face_card_is_missed_before_the_spade_and_the_spade_before_the_count() {
    let no_cards: Vec<Card> = vec![];
    assert_eq!(Hand::try_from(no_cards.as_slice()).err(), Some(Error::RequiresFaceCard));
    let only_a_king = vec![Card::new(King, Clubs)];
    assert_eq!(Hand::try_from(only_a_king.as_slice()).err(), Some(Error::RequiresSpades));
    let king_of_spades = vec![Card::new(King, Spades)];
    assert_eq!(Hand::try_from(king_of_spades.as_slice()).err(), Some(Error::Not13Cards));
}

#[test]
fn playing_a_card_takes_it_out_of_the_hand() {
    let mut hand = Hand::try_from(thirteen().as_slice()).unwrap();
    let card = Card::new(Queen, Hearts);
    assert_eq!(hand.play(card), Ok(()));
    assert_eq!(hand.len(), 12);
    assert!(!hand.contains(card));
    assert_eq!(hand.play(card), Err(Error::HandDoesNotHaveThisCard));
    assert_eq!(hand.len(), 12);
}

#[test]
fn playing_a_card_that_is_not_held_changes_nothing() {
    let mut hand = Hand::try_from(thirteen().as_slice()).unwrap();
    let before = hand.to_vec();
    assert_eq!(hand.play(Card::new(Ace, Clubs)), Err(Error::HandDoesNotHaveThisCard));
    assert_eq!(hand.to_vec(), before);
}

#[test]
fn filter_keeps_the_cards_that_match_in_their_order() {
    let hand = Hand::try_from(thirteen().as_slice()).unwrap();
    let spades = hand.filter(|card| card.get_suit() == Spades);
    assert_eq!(
        spades,
        vec![Card::new(King, Spades), Card::new(Three, Spades), Card::new(Two, Spades)]
    );
    let high = hand.filter(|card| card.get_rank() > Queen);
    assert_eq!(
        high,
        vec![Card::new(King, Diamonds), Card::new(King, Hearts), Card::new(King, Spades)]
    );
    assert_eq!(hand.filter(|_| true), hand.to_vec());
    assert!(hand.filter(|_| false).is_empty());
    assert!(hand.filter(|card| card.get_suit() == Clubs).is_empty());
    // the hand is as it was, and can be asked again
    assert_eq!(hand.len(), 13);
    assert_eq!(hand.filter(|card| card.get_suit() == Spades), spades);
}

#[test]
fn select_works_on_any_cards() {
    let cards = thirteen();
    let twos = select(cards.as_slice(), |card| card.get_rank() == Two);
    assert_eq!(
        twos,
        vec![Card::new(Two, Diamonds), Card::new(Two, Hearts), Card::new(Two, Spades)]
    );
}

#[test]
fn a_hand_is_put_together_card_by_card() {
    let mut hand = Hand::new();
    assert!(hand.is_empty());
    assert!(!hand.is_valid());
    for card in thirteen() {
        assert_eq!(hand.add_card(card), Ok(()));
    }
    assert_eq!(hand.len(), 13);
    assert_eq!(hand.get_cards(), thirteen().as_slice());
    assert!(hand.is_valid());
    assert_eq!(hand.add_card(Card::new(Ace, Clubs)), Err(Error::HandIsFull));
    assert_eq!(hand.add_card(Card::new(Two, Spades)), Err(Error::HandHasCardAlready));
    assert_eq!(hand.len(), 13);
}

#[test]
fn a_card_is_not_added_twice() {
    let mut hand = Hand::new();
    assert_eq!(hand.add_card(Card::new(Two, Spades)), Ok(()));
    assert_eq!(hand.add_card(Card::new(Two, Spades)), Err(Error::HandHasCardAlready));
    assert_eq!(hand.len(), 1);
}

#[test]
fn removing_a_card_takes_it_out_wherever_it_is() {
    let mut hand = Hand::try_from(thirteen().as_slice()).unwrap();
    hand.remove(Card::new(King, Spades));
    assert_eq!(hand.len(), 12);
    assert!(!hand.contains(Card::new(King, Spades)));
    hand.remove(Card::new(Ace, Clubs));
    assert_eq!(hand.len(), 12);
    assert!(!hand.is_valid());
}

#[test]
fn a_hand_is_valid_with_thirteen_cards_a_spade_and_a_face_card() {
    let mut hand = Hand::new();
    for card in thirteen() {
        hand.add_card(card).unwrap();
    }
    assert!(hand.is_valid());
    hand.remove(Card::new(King, Spades));
    hand.add_card(Card::new(Ace, Clubs)).unwrap();
    assert!(hand.is_valid());
    hand.remove(Card::new(Two, Spades));
    hand.remove(Card::new(Three, Spades));
    hand.add_card(Card::new(Five, Clubs)).unwrap();
    hand.add_card(Card::new(Six, Clubs)).unwrap();
    assert_eq!(hand.len(), 13);
    assert!(!hand.is_valid());
}

#[test]
fn a_copy_of_a_hand_holds_the_same_cards() {
    let hand = Hand::try_from(thirteen().as_slice()).unwrap();
    let mut copy = hand.copy();
    assert_eq!(copy.to_vec(), hand.to_vec());
    copy.play(Card::new(King, Spades)).unwrap();
    assert_eq!(hand.len(), 13);
    assert_eq!(copy.len(), 12);
}

#[test]
fn laying_out_sorts_and_keeps_every_card() {
    let cards = vec![
        Card::new(Two, Spades),
        Card::new(Ace, Clubs),
        Card::new(Two, Clubs),
        Card::new(Nine, Hearts),
        Card::new(Two, Spades),
        Card::new(Ten, Hearts),
    ];
    let out = lay_out(cards.as_slice());
    assert_eq!(
        out,
        vec![
            Card::new(Ace, Clubs),
            Card::new(Two, Clubs),
            Card::new(Ten, Hearts),
            Card::new(Nine, Hearts),
            Card::new(Two, Spades),
            Card::new(Two, Spades),
        ]
    );
}

#[test]
fn duplicates_are_found() {
    assert!(all_different(thirteen().as_slice()));
    let mut cards = thirteen();
    cards[12] = cards[0];
    assert!(!all_different(cards.as_slice()));
    let none: Vec<Card> = vec![];
    assert!(all_different(none.as_slice()));
}

#[test]
fn holds_finds_a_card_among_cards() {
    let cards = thirteen();
    assert!(holds(cards.as_slice(), Card::new(Two, Spades)));
    assert!(!holds(cards.as_slice(), Card::new(Ace, Spades)));
    let suits: Vec<Suit> = cards.iter().map(|c| c.get_suit()).collect();
    assert!(!suits.contains(&Clubs));
}

#[test]
fn ranks_used_in_these_tests_are_in_order() {
    let ranks = [Two, Three, Four, Five, Six, Seven, Eight, Nine, Ten, Jack, Queen, King, Ace];
    for pair in ranks.windows(2) {
        assert!(pair[0] < pair[1]);
    }
}
