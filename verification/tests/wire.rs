use callbreak::deck::{Card, Rank, Suit};
use callbreak::wire::{
    action_token, parse_action, parse_call, parse_card, parse_rank, parse_suit, rank_token,
    same_text, suit_token,
};
use callbreak::{Action, Call, Error};

const RANKS: [Rank; 13] = [
    Rank::Two,
    Rank::Three,
    Rank::Four,
    Rank::Five,
    Rank::Six,
    Rank::Seven,
    Rank::Eight,
    Rank::Nine,
    Rank::Ten,
    Rank::Jack,
    Rank::Queen,
    Rank::King,
    Rank::Ace,
];

const SUITS: [Suit; 4] = [Suit::Clubs, Suit::Diamonds, Suit::Hearts, Suit::Spades];

#[test]
fn every_card_is_read_back_from_its_words() {
    let mut seen = vec![];
    for rank in RANKS {
        for suit in SUITS {
            let card = Card::new(rank, suit);
            let words = (rank_token(card.get_rank()), suit_token(card.get_suit()));
            assert_eq!(parse_card(words.0, words.1), Some(card));
            assert!(!seen.contains(&words));
            seen.push(words);
        }
    }
    assert_eq!(seen.len(), 52);
}

#[test]
fn ranks_are_written_as_numbers_and_small_letters() {
    let words = ["2", "3", "4", "5", "6", "7", "8", "9", "10", "j", "q", "k", "a"];
    for (rank, word) in RANKS.iter().zip(words) {
        assert_eq!(rank_token(*rank), word);
        assert_eq!(parse_rank(word), Some(*rank));
    }
    for word in ["", "1", "11", "J", "two", "ace", "10 ", "x"] {
        assert_eq!(parse_rank(word), None);
    }
}

#[test]
fn suits_are_written_as_their_names_in_small_letters() {
    let words = ["clubs", "diamonds", "hearts", "spades"];
    for (suit, word) in SUITS.iter().zip(words) {
        assert_eq!(suit_token(*suit), word);
        assert_eq!(parse_suit(word), Some(*suit));
    }
    for word in ["", "Clubs", "club", "spade", "heartss"] {
        assert_eq!(parse_suit(word), None);
    }
}

#[test]
fn a_card_needs_both_words() {
    assert_eq!(parse_card("a", "spades"), Some(Card::new(Rank::Ace, Suit::Spades)));
    assert_eq!(parse_card("10", "hearts"), Some(Card::new(Rank::Ten, Suit::Hearts)));
    assert_eq!(parse_card("a", "spade"), None);
    assert_eq!(parse_card("1", "spades"), None);
    assert_eq!(parse_card("spades", "a"), None);
}

#[test]
fn every_call_is_read_back_from_its_number() {
    for number in 1..=13u8 {
        let call = Call::new(number).unwrap();
        assert_eq!(call.value(), number);
        assert_eq!(Call::new(call.value()), Ok(call));
        assert_eq!(parse_call(call.value() as u64), Ok(call));
    }
}

#[test]
fn a_number_out_of_range_is_no_call() {
    assert_eq!(Call::new(0), Err(Error::CallValueTooSmall));
    assert_eq!(parse_call(0), Err(Error::CallValueTooSmall));
    for number in 14..=255u8 {
        assert_eq!(Call::new(number), Err(Error::CallValueTooLarge));
        assert_eq!(parse_call(number as u64), Err(Error::CallValueTooLarge));
    }
    assert_eq!(parse_call(256), Err(Error::CallValueTooLarge));
    assert_eq!(parse_call(257), Err(Error::CallValueTooLarge));
    assert_eq!(parse_call(u64::MAX), Err(Error::CallValueTooLarge));
}

#[test]
fn calls_are_in_the_order_of_their_numbers() {
    assert!(Call::new(1).unwrap() < Call::new(2).unwrap());
    assert!(Call::new(12).unwrap() < Call::new(13).unwrap());
    assert_eq!(Call::new(5).unwrap(), Call::new(5).unwrap());
}

#[test]
fn what_is_asked_is_written_as_call_or_break() {
    assert_eq!(action_token(Action::Call), "call");
    assert_eq!(action_token(Action::Break), "break");
    assert_eq!(parse_action("call"), Some(Action::Call));
    assert_eq!(parse_action("break"), Some(Action::Break));
    assert_eq!(parse_action("play"), None);
    assert_eq!(parse_action(""), None);
}

#[test]
fn texts_are_compared_character_by_character() {
    assert!(same_text("", ""));
    assert!(same_text("spades", "spades"));
    assert!(!same_text("spades", "spade"));
    assert!(!same_text("spades", "spadez"));
    assert!(!same_text("a", ""));
    assert!(same_text("żółw", "żółw"));
    assert!(!same_text("żółw", "zolw"));
}
