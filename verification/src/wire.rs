//! The words that stand for ranks, suits, bids and requests in messages.

use vstd::prelude::*;
use vstd::string::StrSliceExecFns;
use crate::call::Call;
use crate::deck::{Card, Rank, Suit};
use crate::error::Error;
use crate::message::Action;

verus! {

/// The word that stands for a rank in a message.
pub open spec fn rank_text(rank: Rank) -> Seq<char> {
    match rank {
        Rank::Two => "2"@,
        Rank::Three => "3"@,
        Rank::Four => "4"@,
        Rank::Five => "5"@,
        Rank::Six => "6"@,
        Rank::Seven => "7"@,
        Rank::Eight => "8"@,
        Rank::Nine => "9"@,
        Rank::Ten => "10"@,
        Rank::Jack => "j"@,
        Rank::Queen => "q"@,
        Rank::King => "k"@,
        Rank::Ace => "a"@,
    }
}

/// The rank that a word stands for, if it stands for one.
pub open spec fn rank_read(text: Seq<char>) -> Option<Rank> {
    if text == "2"@ {
        Some(Rank::Two)
    } else if text == "3"@ {
        Some(Rank::Three)
    } else if text == "4"@ {
        Some(Rank::Four)
    } else if text == "5"@ {
        Some(Rank::Five)
    } else if text == "6"@ {
        Some(Rank::Six)
    } else if text == "7"@ {
        Some(Rank::Seven)
    } else if text == "8"@ {
        Some(Rank::Eight)
    } else if text == "9"@ {
        Some(Rank::Nine)
    } else if text == "10"@ {
        Some(Rank::Ten)
    } else if text == "j"@ {
        Some(Rank::Jack)
    } else if text == "q"@ {
        Some(Rank::Queen)
    } else if text == "k"@ {
        Some(Rank::King)
    } else if text == "a"@ {
        Some(Rank::Ace)
    } else {
        None
    }
}

/// The word that stands for a suit in a message.
pub open spec fn suit_text(suit: Suit) -> Seq<char> {
    match suit {
        Suit::Clubs => "clubs"@,
        Suit::Diamonds => "diamonds"@,
        Suit::Hearts => "hearts"@,
        Suit::Spades => "spades"@,
    }
}

/// The suit that a word stands for, if it stands for one.
pub open spec fn suit_read(text: Seq<char>) -> Option<Suit> {
    if text == "clubs"@ {
        Some(Suit::Clubs)
    } else if text == "diamonds"@ {
        Some(Suit::Diamonds)
    } else if text == "hearts"@ {
        Some(Suit::Hearts)
    } else if text == "spades"@ {
        Some(Suit::Spades)
    } else {
        None
    }
}

/// The card that two words stand for, the first for its rank and the second
/// for its suit, if they stand for one.
pub open spec fn card_read(rank: Seq<char>, suit: Seq<char>) -> Option<Card> {
    match (rank_read(rank), suit_read(suit)) {
        (Some(r), Some(s)) => Some(Card::of(r, s)),
        _ => None,
    }
}

/// The word that stands for what is asked of a player.
pub open spec fn action_text(action: Action) -> Seq<char> {
    match action {
        Action::Call => "call"@,
        Action::Break => "break"@,
    }
}

/// What is asked of a player by a word, if the word asks for anything.
pub open spec fn action_read(text: Seq<char>) -> Option<Action> {
    if text == "call"@ {
        Some(Action::Call)
    } else if text == "break"@ {
        Some(Action::Break)
    } else {
        None
    }
}

/// Whether two texts are the same, character by character.
pub fn same_text(a: &str, b: &str) -> (same: bool)
    ensures
        same == (a@ == b@),
{
    let n = a.unicode_len();
    if n != b.unicode_len() {
        return false;
    }
    let mut i: usize = 0;
    while i < n
        invariant
            i <= n,
            n == a@.len(),
            n == b@.len(),
            forall|k: int| 0 <= k < i ==> a@[k] == b@[k],
        decreases n - i,
    {
        if a.get_char(i) != b.get_char(i) {
            return false;
        }
        i += 1;
    }
    assert(a@ =~= b@);
    true
}

/// The word that stands for a rank in a message.
pub fn rank_token(rank: Rank) -> (token: &'static str)
    ensures
        token@ == rank_text(rank),
{
    match rank {
        Rank::Two => "2",
        Rank::Three => "3",
        Rank::Four => "4",
        Rank::Five => "5",
        Rank::Six => "6",
        Rank::Seven => "7",
        Rank::Eight => "8",
        Rank::Nine => "9",
        Rank::Ten => "10",
        Rank::Jack => "j",
        Rank::Queen => "q",
        Rank::King => "k",
        Rank::Ace => "a",
    }
}

/// Reads the word that stands for a rank.
pub fn parse_rank(token: &str) -> (rank: Option<Rank>)
    ensures
        rank == rank_read(token@),
{
    if same_text(token, "2") {
        Some(Rank::Two)
    } else if same_text(token, "3") {
        Some(Rank::Three)
    } else if same_text(token, "4") {
        Some(Rank::Four)
    } else if same_text(token, "5") {
        Some(Rank::Five)
    } else if same_text(token, "6") {
        Some(Rank::Six)
    } else if same_text(token, "7") {
        Some(Rank::Seven)
    } else if same_text(token, "8") {
        Some(Rank::Eight)
    } else if same_text(token, "9") {
        Some(Rank::Nine)
    } else if same_text(token, "10") {
        Some(Rank::Ten)
    } else if same_text(token, "j") {
        Some(Rank::Jack)
    } else if same_text(token, "q") {
        Some(Rank::Queen)
    } else if same_text(token, "k") {
        Some(Rank::King)
    } else if same_text(token, "a") {
        Some(Rank::Ace)
    } else {
        None
    }
}

/// The word that stands for a suit in a message.
pub fn suit_token(suit: Suit) -> (token: &'static str)
    ensures
        token@ == suit_text(suit),
{
    match suit {
        Suit::Clubs => "clubs",
        Suit::Diamonds => "diamonds",
        Suit::Hearts => "hearts",
        Suit::Spades => "spades",
    }
}

/// Reads the word that stands for a suit.
pub fn parse_suit(token: &str) -> (suit: Option<Suit>)
    ensures
        suit == suit_read(token@),
{
    if same_text(token, "clubs") {
        Some(Suit::Clubs)
    } else if same_text(token, "diamonds") {
        Some(Suit::Diamonds)
    } else if same_text(token, "hearts") {
        Some(Suit::Hearts)
    } else if same_text(token, "spades") {
        Some(Suit::Spades)
    } else {
        None
    }
}

/// Reads the two words that stand for a card.
pub fn parse_card(rank: &str, suit: &str) -> (card: Option<Card>)
    ensures
        card == card_read(rank@, suit@),
{
    match (parse_rank(rank), parse_suit(suit)) {
        (Some(r), Some(s)) => Some(Card::new(r, s)),
        _ => None,
    }
}

/// The word that stands for what is asked of a player.
pub fn action_token(action: Action) -> (token: &'static str)
    ensures
        token@ == action_text(action),
{
    match action {
        Action::Call => "call",
        Action::Break => "break",
    }
}

/// Reads the word that says what is asked of a player.
pub fn parse_action(token: &str) -> (action: Option<Action>)
    ensures
        action == action_read(token@),
{
    if same_text(token, "call") {
        Some(Action::Call)
    } else if same_text(token, "break") {
        Some(Action::Break)
    } else {
        None
    }
}

/// Reads the number that stands for a bid. A number that is no bid, from 14
/// on and zero, is refused as `Call::new` refuses it.
pub fn parse_call(number: u64) -> (result: Result<Call, Error>)
    ensures
        result == if number > 255 {
            Err::<Call, Error>(Error::CallValueTooLarge)
        } else {
            Call::checked(number as u8)
        },
{
    if number > 255 {
        Err(Error::CallValueTooLarge)
    } else {
        Call::new(number as u8)
    }
}

/// Writing a rank as its word and reading the word gives the rank back.
pub proof fn lemma_rank_round_trip(rank: Rank)
    ensures
        rank_read(rank_text(rank)) == Some(rank),
{
    reveal_strlit("2");
    reveal_strlit("3");
    reveal_strlit("4");
    reveal_strlit("5");
    reveal_strlit("6");
    reveal_strlit("7");
    reveal_strlit("8");
    reveal_strlit("9");
    reveal_strlit("10");
    reveal_strlit("j");
    reveal_strlit("q");
    reveal_strlit("k");
    reveal_strlit("a");
    assert("2"@[0] == '2');
    assert("3"@[0] == '3');
    assert("4"@[0] == '4');
    assert("5"@[0] == '5');
    assert("6"@[0] == '6');
    assert("7"@[0] == '7');
    assert("8"@[0] == '8');
    assert("9"@[0] == '9');
    assert("10"@.len() == 2);
    assert("j"@[0] == 'j');
    assert("q"@[0] == 'q');
    assert("k"@[0] == 'k');
    assert("a"@[0] == 'a');
}

/// Writing a suit as its word and reading the word gives the suit back.
pub proof fn lemma_suit_round_trip(suit: Suit)
    ensures
        suit_read(suit_text(suit)) == Some(suit),
{
    reveal_strlit("clubs");
    reveal_strlit("diamonds");
    reveal_strlit("hearts");
    reveal_strlit("spades");
    assert("clubs"@[0] == 'c');
    assert("diamonds"@[0] == 'd');
    assert("hearts"@[0] == 'h');
    assert("spades"@[0] == 's');
}

/// Writing a card as the words of its rank and suit and reading the two
/// words gives the card back, for each of the 52 cards.
pub proof fn lemma_card_round_trip(card: Card)
    ensures
        card_read(rank_text(card.rank()), suit_text(card.suit())) == Some(card),
{
    lemma_rank_round_trip(card.rank());
    lemma_suit_round_trip(card.suit());
    card.lemma_card_parts();
}

/// Writing a bid as its number and reading the number gives the bid back, for
/// every bid from 1 to 13.
pub proof fn lemma_call_round_trip(call: Call)
    requires
        call.wf(),
    ensures
        Call::checked(call.tricks() as u8) == Ok::<Call, Error>(call),
{
    call.lemma_round_trip();
}

/// Writing what is asked of a player as its word and reading the word gives
/// it back.
pub proof fn lemma_action_round_trip(action: Action)
    ensures
        action_read(action_text(action)) == Some(action),
{
    reveal_strlit("call");
    reveal_strlit("break");
    assert("call"@[0] == 'c');
    assert("break"@[0] == 'b');
}

} // verus!
