//! Rules engine for the four-player trick-taking card game Call-Break:
//! the deal, the bidding, the tricks, and the host that asks the players in
//! turn.

pub mod agent;
pub mod call;
pub mod deck;
pub mod error;
pub mod game;
pub mod hand;
pub mod host;
pub mod message;
pub mod player;
pub mod playerview;
pub mod round;
pub mod shuffle;
pub mod trick;
pub mod turn;
pub mod wire;

pub use agent::{Agent, Bot, Human, Transport};
pub use call::Call;
pub use deck::{Card, Deck, Rank, Suit};
pub use error::Error;
pub use game::Game;
pub use hand::Hand;
pub use host::Host;
pub use message::{Action, ClientMessage, ServerMessage};
pub use player::Player;
pub use playerview::{Context, PlayerView, RoundView};
pub use round::{Round, RoundId};
pub use trick::Trick;
pub use turn::Turn;
