use callbreak::deck::{Card, Deck, Rank, Suit};

const RANKS: [Rank; 13] = [
    Rank::Two,
    Rank::Three,
    Rank::Four,
    Rank::Five,
    Rank::Six,
    Rank::Seven,
    Rank::Eight,
    Rank::Nine,
    Rank::Ten,
    Rank::Jack,
    Rank::Queen,
    Rank::King,
    Rank::Ace,
];

const SUITS: [Suit; 4] = [Suit::Clubs, Suit::Diamonds, Suit::Hearts, Suit::Spades];

fn drain(mut deck: Deck) -> Vec<Card> {
    let mut cards = vec![];
    while let Some(card) = deck.next() {
        cards.push(card);
    }
    cards
}

#[test]
fn new_deck_works() {
    let cards = drain(Deck::new());
    assert_eq!(cards.len(), 52);
    for rank in RANKS.iter() {
        for suit in SUITS.iter() {
            let card = Card::new(*rank, *suit);
            assert!(cards.contains(&card));
        }
    }
}

#[test]
fn new_deck_holds_no_card_twice() {
    let cards = drain(Deck::new());
    for i in 0..cards.len() {
        for j in 0..i {
            assert_ne!(cards[i], cards[j]);
        }
    }
}

#[test]
fn ordered_deck_goes_rank_by_rank() {
    let cards = drain(Deck::ordered());
    assert_eq!(cards.len(), 52);
    assert_eq!(cards[0], Card::new(Rank::Two, Suit::Clubs));
    assert_eq!(cards[1], Card::new(Rank::Two, Suit::Diamonds));
    assert_eq!(cards[3], Card::new(Rank::Two, Suit::Spades));
    assert_eq!(cards[4], Card::new(Rank::Three, Suit::Clubs));
    assert_eq!(cards[51], Card::new(Rank::Ace, Suit::Spades));
    for (i, card) in cards.iter().enumerate() {
        assert_eq!(*card, Card::new(RANKS[i / 4], SUITS[i % 4]));
    }
}

#[test]
fn shuffling_changes_the_order() {
    let ordered = drain(Deck::ordered());
    let mut moved = false;
    for _ in 0..4 {
        let mut deck = Deck::ordered();
        deck.shuffle();
        if drain(deck) != ordered {
            moved = true;
        }
    }
    assert!(moved);
}

#[test]
fn shuffling_keeps_the_cards() {
    let mut deck = Deck::ordered();
    deck.shuffle();
    let cards = drain(deck);
    assert_eq!(cards.len(), 52);
    for card in drain(Deck::ordered()) {
        assert_eq!(cards.iter().filter(|c| **c == card).count(), 1);
    }
}

#[test]
fn deck_hands_out_each_card_once_and_then_nothing() {
    let mut deck = Deck::new();
    let all = deck.remaining().to_vec();
    assert_eq!(all.len(), 52);
    for i in 0..52 {
        assert_eq!(deck.remaining().len(), 52 - i);
        assert_eq!(deck.next(), Some(all[i]));
    }
    assert_eq!(deck.next(), None);
    assert_eq!(deck.next(), None);
    assert_eq!(deck.remaining().len(), 0);
}

#[test]
fn default_deck_is_a_full_deck() {
    let cards = drain(Deck::default());
    assert_eq!(cards.len(), 52);
    for card in drain(Deck::ordered()) {
        assert!(cards.contains(&card));
    }
}

#[test]
fn card_keeps_its_rank_and_suit() {
    for rank in RANKS.iter() {
        for suit in SUITS.iter() {
            let card = Card::new(*rank, *suit);
            assert_eq!(card.get_rank(), *rank);
            assert_eq!(card.get_suit(), *suit);
        }
    }
}

#[test]
fn card_key_goes_suit_by_suit_and_from_the_ace_down() {
    assert_eq!(Card::new(Rank::Ace, Suit::Clubs).key(), 0);
    assert_eq!(Card::new(Rank::Two, Suit::Clubs).key(), 12);
    assert_eq!(Card::new(Rank::Ace, Suit::Diamonds).key(), 13);
    assert_eq!(Card::new(Rank::King, Suit::Hearts).key(), 27);
    assert_eq!(Card::new(Rank::Two, Suit::Spades).key(), 51);
}

#[test]
fn rank_values_run_from_two_to_fourteen() {
    for (i, rank) in RANKS.iter().enumerate() {
        assert_eq!(rank.value() as usize, i + 2);
        assert_eq!(Rank::from_value(rank.value()), Some(*rank));
        assert_eq!(rank.face(), i >= 9);
    }
    assert_eq!(Rank::from_value(0), None);
    assert_eq!(Rank::from_value(1), None);
    assert_eq!(Rank::from_value(15), None);
    assert!(Rank::Two < Rank::Three);
    assert!(Rank::King < Rank::Ace);
}

#[test]
fn rank_is_written_with_its_number_or_letter() {
    assert_eq!(Rank::Two.to_string(), "2");
    assert_eq!(Rank::Ten.to_string(), "10");
    assert_eq!(Rank::Jack.to_string(), "J");
    assert_eq!(Rank::Queen.to_string(), "Q");
    assert_eq!(Rank::King.to_string(), "K");
    assert_eq!(Rank::Ace.to_string(), "A");
}

#[test]
fn suit_indices_run_from_clubs_to_spades() {
    for (i, suit) in SUITS.iter().enumerate() {
        assert_eq!(suit.index() as usize, i);
        assert_eq!(Suit::from_index(i as u8), Some(*suit));
        assert_eq!(suit.is_trump(), *suit == Suit::Spades);
    }
    assert_eq!(Suit::from_index(4), None);
}

#[test]
fn a_deck_is_made_of_the_52_cards_in_any_order() {
    let mut cards = drain(Deck::ordered());
    cards.reverse();
    let deck = Deck::from_cards(cards.as_slice()).unwrap();
    assert_eq!(deck.as_slice(), cards.as_slice());
    assert_eq!(deck.remaining(), cards.as_slice());
    assert_eq!(drain(deck), cards);
}

#[test]
fn cards_that_are_not_the_52_make_no_deck() {
    let cards = drain(Deck::ordered());
    assert!(Deck::from_cards(&cards[..51]).is_none());
    assert!(Deck::from_cards(&[]).is_none());
    let mut more = cards.clone();
    more.push(cards[0]);
    assert!(Deck::from_cards(more.as_slice()).is_none());
    let mut twice = cards.clone();
    twice[51] = twice[50];
    assert!(Deck::from_cards(twice.as_slice()).is_none());
}
