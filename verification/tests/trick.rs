use callbreak::deck::Rank::{Ace, Five, Four, Jack, King, Queen, Seven, Six, Ten, Three, Two};
use callbreak::deck::Suit::{Clubs, Diamonds, Hearts, Spades};
use callbreak::deck::Card;
use callbreak::{Error, Hand, Trick, Turn};

fn random_turn() -> Turn {
    Turn::new(rand::random_range(0..=3))
}

fn hand_with_0_clubs_234qk_diamonds_234qk_hearts_23k_spades() -> Hand {
    let cards = vec![
        Card::new(Two, Diamonds),
        Card::new(Three, Diamonds),
        Card::new(Four, Diamonds),
        Card::new(Queen, Diamonds),
        Card::new(King, Diamonds),
        Card::new(Two, Hearts),
        Card::new(Three, Hearts),
        Card::new(Four, Hearts),
        Card::new(Queen, Hearts),
        Card::new(King, Hearts),
        Card::new(Two, Spades),
        Card::new(Three, Spades),
        Card::new(King, Spades),
    ];
    Hand::try_from(cards.as_slice()).unwrap()
}

#[test]
fn starter_card_is_none_for_new_trick() {
    let card = Trick::new(random_turn()).starter().1;
    assert!(card.is_none())
}

#[test]
fn starter_card_is_some_after_first_play() {
    let mut trick = Trick::new(random_turn());
    let card = Card::new(Five, Hearts);
    trick.play(card).unwrap();
    trick.play(Card::new(Six, Hearts)).unwrap();
    trick.play(Card::new(Two, Hearts)).unwrap();
    let starter = trick.starter().1;
    assert!(starter.is_some_and(|c| c == card));
}

#[test]
fn winner_is_none_when_no_play() {
    let trick = Trick::new(random_turn());
    assert!(trick.winner().is_none());
}

#[test]
fn winner_is_correct_when_all_plays_are_non_spades() {
    let mut trick = Trick::new(random_turn());
    trick.play(Card::new(Queen, Clubs)).unwrap();
    trick.play(Card::new(King, Clubs)).unwrap();
    trick.play(Card::new(Two, Clubs)).unwrap();
    trick.play(Card::new(Ace, Hearts)).unwrap();
    assert!(trick.winner().is_some_and(
        |(turn, card)| turn == trick.starter().0.next() && card == Card::new(King, Clubs)
    ));
}

#[test]
fn winner_is_correct_when_non_spade_starter_is_spaded() {
    let mut trick = Trick::new(random_turn());
    trick.play(Card::new(Queen, Clubs)).unwrap();
    trick.play(Card::new(King, Clubs)).unwrap();
    trick.play(Card::new(Two, Spades)).unwrap();
    trick.play(Card::new(Ace, Hearts)).unwrap();
    assert!(
        trick
            .winner()
            .is_some_and(|(turn, card)| turn == trick.starter().0.next().next()
                && card == Card::new(Two, Spades))
    );
}

#[test]
fn winner_is_correct_when_non_spade_starter_is_spaded_twice() {
    let mut trick = Trick::new(random_turn());
    trick.play(Card::new(Queen, Clubs)).unwrap();
    trick.play(Card::new(King, Clubs)).unwrap();
    trick.play(Card::new(Two, Spades)).unwrap();
    trick.play(Card::new(Four, Spades)).unwrap();
    assert!(trick.winner().is_some_and(|(turn, card)| turn
        == trick.starter().0.next().next().next()
        && card == Card::new(Four, Spades)));
}

#[test]
fn winner_is_correct_when_all_plays_are_spades() {
    let mut trick = Trick::new(random_turn());
    trick.play(Card::new(Queen, Spades)).unwrap();
    trick.play(Card::new(King, Spades)).unwrap();
    trick.play(Card::new(Two, Spades)).unwrap();
    trick.play(Card::new(Seven, Spades)).unwrap();
    assert!(trick.winner().is_some_and(
        |(turn, card)| turn == trick.starter().0.next() && card == Card::new(King, Spades)
    ));
}

#[test]
fn only_winning_rank_of_starter_suit_is_valid_play() {
    let mut trick = Trick::new(random_turn());
    trick.play(Card::new(Seven, Diamonds)).unwrap();

    let hand = hand_with_0_clubs_234qk_diamonds_234qk_hearts_23k_spades();
    assert!(trick.valid_play_from(&hand).len() == 2)
}

#[test]
fn only_starter_suit_is_valid_is_valid() {
    let mut trick = Trick::new(random_turn());
    trick.play(Card::new(Ace, Diamonds)).unwrap();

    let hand = hand_with_0_clubs_234qk_diamonds_234qk_hearts_23k_spades();
    assert!(trick.valid_play_from(&hand).len() == 5)
}

#[test]
fn only_spade_is_valid_play_if_missing_starter_suit() {
    let mut trick = Trick::new(random_turn());
    trick.play(Card::new(Ace, Clubs)).unwrap();

    let hand = hand_with_0_clubs_234qk_diamonds_234qk_hearts_23k_spades();
    assert!(trick.valid_play_from(&hand).len() == 3)
}

#[test]
fn only_winning_spade_is_valid_play_if_missing_starter_suit() {
    let mut trick = Trick::new(random_turn());
    trick.play(Card::new(Ace, Clubs)).unwrap();
    trick.play(Card::new(Five, Spades)).unwrap();

    let hand = hand_with_0_clubs_234qk_diamonds_234qk_hearts_23k_spades();
    assert!(trick.valid_play_from(&hand).len() == 1)
}

#[test]
fn must_play_winning_rank_of_starter_suit() {
    let mut trick = Trick::new(random_turn());
    trick.play(Card::new(Seven, Diamonds)).unwrap();
    let hand = hand_with_0_clubs_234qk_diamonds_234qk_hearts_23k_spades();
    assert_eq!(
        trick.valid_play_from(&hand),
        vec![Card::new(King, Diamonds), Card::new(Queen, Diamonds)]
    );
}

#[test]
fn must_play_any_of_starter_suit() {
    let mut trick = Trick::new(random_turn());
    trick.play(Card::new(Ace, Diamonds)).unwrap();
    let hand = hand_with_0_clubs_234qk_diamonds_234qk_hearts_23k_spades();
    assert_eq!(
        trick.valid_play_from(&hand),
        vec![
            Card::new(King, Diamonds),
            Card::new(Queen, Diamonds),
            Card::new(Four, Diamonds),
            Card::new(Three, Diamonds),
            Card::new(Two, Diamonds),
        ]
    );
}

#[test]
fn must_play_spade_if_missing_starter_suit() {
    let mut trick = Trick::new(random_turn());
    trick.play(Card::new(Ace, Clubs)).unwrap();
    let hand = hand_with_0_clubs_234qk_diamonds_234qk_hearts_23k_spades();
    assert_eq!(
        trick.valid_play_from(&hand),
        vec![Card::new(King, Spades), Card::new(Three, Spades), Card::new(Two, Spades)]
    );
}

#[test]
fn must_play_winning_spade_if_missing_starter_suit() {
    let mut trick = Trick::new(random_turn());
    trick.play(Card::new(Ace, Clubs)).unwrap();
    trick.play(Card::new(Five, Spades)).unwrap();
    let hand = hand_with_0_clubs_234qk_diamonds_234qk_hearts_23k_spades();
    assert_eq!(trick.valid_play_from(&hand), vec![Card::new(King, Spades)]);
}

#[test]
fn any_card_may_be_led() {
    let trick = Trick::new(random_turn());
    let hand = hand_with_0_clubs_234qk_diamonds_234qk_hearts_23k_spades();
    assert_eq!(trick.valid_play_from(&hand), hand.to_vec());
}

#[test]
fn nothing_may_be_played_into_a_full_trick() {
    let mut trick = Trick::new(random_turn());
    trick.play(Card::new(Queen, Clubs)).unwrap();
    trick.play(Card::new(King, Clubs)).unwrap();
    trick.play(Card::new(Two, Clubs)).unwrap();
    trick.play(Card::new(Ace, Hearts)).unwrap();
    assert!(trick.is_over());
    let hand = hand_with_0_clubs_234qk_diamonds_234qk_hearts_23k_spades();
    assert!(trick.valid_play_from(&hand).is_empty());
    assert_eq!(trick.play(Card::new(Ace, Clubs)), Err(Error::NotAcceptingPlay));
    assert_eq!(trick.turn(), Err(Error::NotAcceptingPlay));
}

#[test]
fn without_the_suit_led_and_without_a_spade_any_card_may_be_played() {
    let mut trick = Trick::new(random_turn());
    trick.play(Card::new(Ace, Clubs)).unwrap();
    let cards = vec![Card::new(Two, Diamonds), Card::new(King, Hearts), Card::new(Three, Hearts)];
    assert_eq!(trick.valid_plays(cards.as_slice()), cards);
}

#[test]
fn without_the_suit_led_and_without_a_higher_spade_any_card_may_be_played() {
    let mut trick = Trick::new(random_turn());
    trick.play(Card::new(Ace, Clubs)).unwrap();
    trick.play(Card::new(Queen, Spades)).unwrap();
    let cards = vec![Card::new(Two, Diamonds), Card::new(Jack, Spades), Card::new(Three, Hearts)];
    assert_eq!(trick.valid_plays(cards.as_slice()), cards);
}

#[test]
fn the_suit_led_comes_before_a_higher_spade() {
    // a Heart was led and a Spade lies on it; the seat holds Hearts and a
    // Spade above the one that is winning
    let mut trick = Trick::new(Turn::new(1));
    trick.play(Card::new(Ten, Hearts)).unwrap();
    trick.play(Card::new(Five, Spades)).unwrap();
    let hand = hand_with_0_clubs_234qk_diamonds_234qk_hearts_23k_spades();
    assert_eq!(
        trick.valid_play_from(&hand),
        vec![
            Card::new(King, Hearts),
            Card::new(Queen, Hearts),
            Card::new(Four, Hearts),
            Card::new(Three, Hearts),
            Card::new(Two, Hearts),
        ]
    );
}

#[test]
fn a_lower_card_of_the_suit_led_may_follow_where_no_higher_one_is_held() {
    let mut trick = Trick::new(random_turn());
    trick.play(Card::new(Ace, Hearts)).unwrap();
    let cards = vec![Card::new(Two, Hearts), Card::new(King, Spades), Card::new(Three, Hearts)];
    assert_eq!(
        trick.valid_plays(cards.as_slice()),
        vec![Card::new(Two, Hearts), Card::new(Three, Hearts)]
    );
}

#[test]
fn a_spade_lead_asks_for_a_higher_spade() {
    let mut trick = Trick::new(random_turn());
    trick.play(Card::new(Ten, Spades)).unwrap();
    let hand = hand_with_0_clubs_234qk_diamonds_234qk_hearts_23k_spades();
    assert_eq!(trick.valid_play_from(&hand), vec![Card::new(King, Spades)]);
    let mut trick = Trick::new(random_turn());
    trick.play(Card::new(Ace, Spades)).unwrap();
    assert_eq!(
        trick.valid_play_from(&hand),
        vec![Card::new(King, Spades), Card::new(Three, Spades), Card::new(Two, Spades)]
    );
}

#[test]
fn the_legal_cards_of_a_hand_with_cards_are_never_empty() {
    let leads = [
        Card::new(Ace, Clubs),
        Card::new(Two, Diamonds),
        Card::new(Ace, Hearts),
        Card::new(Ace, Spades),
    ];
    let hand = hand_with_0_clubs_234qk_diamonds_234qk_hearts_23k_spades();
    for lead in leads {
        for second in leads {
            let mut trick = Trick::new(random_turn());
            assert!(!trick.valid_play_from(&hand).is_empty());
            trick.play(lead).unwrap();
            assert!(!trick.valid_play_from(&hand).is_empty());
            trick.play(second).unwrap();
            let moves = trick.valid_play_from(&hand);
            assert!(!moves.is_empty());
            for card in moves {
                assert!(hand.contains(card));
            }
        }
    }
}

#[test]
fn the_seats_play_in_their_order_from_the_starter() {
    for start in 0..4 {
        let mut trick = Trick::new(Turn::new(start));
        let mut expected = Turn::new(start);
        for rank in [Two, Three, Four, Five] {
            assert_eq!(trick.turn(), Ok(expected));
            assert_eq!(trick.card_of(expected), None);
            trick.play(Card::new(rank, Hearts)).unwrap();
            assert_eq!(trick.card_of(expected), Some(Card::new(rank, Hearts)));
            expected = expected.next();
        }
        assert!(trick.is_over());
        assert_eq!(expected, Turn::new(start));
    }
}

#[test]
fn one_spade_beats_any_card_of_the_suit_led() {
    let mut trick = Trick::new(Turn::new(2));
    trick.play(Card::new(Ace, Hearts)).unwrap();
    assert!(!trick.has_trump());
    assert_eq!(trick.winner(), Some((Turn::new(2), Card::new(Ace, Hearts))));
    trick.play(Card::new(Two, Spades)).unwrap();
    assert!(trick.has_trump());
    assert_eq!(trick.winner(), Some((Turn::new(3), Card::new(Two, Spades))));
    trick.play(Card::new(King, Hearts)).unwrap();
    assert_eq!(trick.winner(), Some((Turn::new(3), Card::new(Two, Spades))));
    trick.play(Card::new(Ace, Clubs)).unwrap();
    assert_eq!(trick.winner(), Some((Turn::new(3), Card::new(Two, Spades))));
}

#[test]
fn a_card_of_another_suit_wins_nothing() {
    let mut trick = Trick::new(Turn::new(0));
    trick.play(Card::new(Two, Hearts)).unwrap();
    trick.play(Card::new(Ace, Clubs)).unwrap();
    trick.play(Card::new(Ace, Diamonds)).unwrap();
    assert_eq!(trick.winner(), Some((Turn::new(0), Card::new(Two, Hearts))));
}

#[test]
fn turn_wraps_round_the_table() {
    assert_eq!(Turn::new(0).index(), 0);
    assert_eq!(Turn::new(3).index(), 3);
    assert_eq!(Turn::new(4), Turn::new(0));
    assert_eq!(Turn::new(7).index(), 3);
    assert_eq!(Turn::new(0).next(), Turn::new(1));
    assert_eq!(Turn::new(3).next(), Turn::new(0));
    for seat in 0..4 {
        let turn = Turn::new(seat);
        assert_eq!(turn.next().next().next().next(), turn);
    }
}
