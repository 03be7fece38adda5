//! What is asked of a player, and what a player answers.

use vstd::prelude::*;
use crate::call::Call;
use crate::deck::Card;
use crate::playerview::PlayerView;

verus! {

/// What is asked of a player: a bid, or a card.
#[derive(Debug, Clone, Copy, PartialEq, Eq, Structural)]
pub enum Action {
    Call,
    Break,
}

/// What goes to a player whose decision is wanted: what is asked, and what
/// the player may see of the game.
#[derive(Debug, Clone)]
pub struct ServerMessage {
    pub action: Action,
    pub view: PlayerView,
}

/// What comes back from a player: a bid, or a card.
#[derive(Debug, Clone, Copy)]
pub enum ClientMessage {
    Call(Call),
    Break(Card),
}

impl ClientMessage {
    /// What the message answers: a bid answers the request for a bid, a card
    /// the request for a card.
    pub open spec fn answers(self) -> Action {
        match self {
            ClientMessage::Call(_) => Action::Call,
            ClientMessage::Break(_) => Action::Break,
        }
    }

    /// What the message answers.
    pub fn kind(&self) -> (action: Action)
        ensures
            action == self.answers(),
    {
        match self {
            ClientMessage::Call(_) => Action::Call,
            ClientMessage::Break(_) => Action::Break,
        }
    }
}

} // verus!
