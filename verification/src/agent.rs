//! Those who decide for a seat: the bot, and a player asked over a transport.

use vstd::prelude::*;
use crate::call::Call;
use crate::deck::Card;
use crate::error::Error;
use crate::playerview::PlayerView;

pub mod bot;
pub mod human;

pub use bot::Bot;
pub use human::{Human, Transport};

verus! {

/// Whoever decides for a seat: asked for a bid or for a card, with what the
/// seat may see of the game, it answers with one.
pub trait Agent: Send {
    fn call(&mut self, view: &PlayerView) -> (result: Result<Call, Error>)
    ;

    fn play(&mut self, view: &PlayerView) -> (result: Result<Card, Error>)
    ;
}

} // verus!
