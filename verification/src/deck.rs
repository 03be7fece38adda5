//! Ranks, suits, cards and the deck.

pub mod card;
pub mod deck;
pub mod rank;
pub mod suit;

pub use card::Card;
pub use deck::Deck;
pub use rank::Rank;
pub use suit::Suit;
