//! A player asked over a transport, with the bot standing in where the
//! transport fails.

use vstd::prelude::*;
use super::bot::{bot_play, Bot};
use super::Agent;
use crate::call::Call;
use crate::deck::Card;
use crate::error::Error;
use crate::message::{Action, ClientMessage, ServerMessage};
use crate::playerview::PlayerView;

verus! {

/// The way to a player who is somewhere else: it takes what is asked of the
/// player and brings back what the player answers. Nothing is known of what
/// comes back but that it is a message.
pub trait Transport: Send {
    /// Sends a request, and says whether it went out.
    fn send(&mut self, message: ServerMessage) -> (sent: Option<()>)
    ;

    /// Waits for the answer.
    fn receive(&mut self) -> (message: ClientMessage)
    ;
}

/// A player who is asked over a transport. Where the request does not go
/// out, or the answer is not of the kind that was asked for, the bot decides
/// in the player's place, for that one request.
pub struct Human {
    // In a tuple of one: Verus does not follow a boxed trait object through a
    // coercion, and a field of the box's own type would be the place of one.
    transport: (Box<dyn Transport>,),
}

/// The bid that stands once a request for a bid was answered: the bid that
/// came, and the bot's bid where something else came.
pub open spec fn settled_call(message: ClientMessage) -> Call {
    match message {
        ClientMessage::Call(call) => call,
        ClientMessage::Break(_) => Call::of(1),
    }
}

/// The card that stands once a request for a card was answered: the card
/// that came, and the bot's card where something else came.
pub open spec fn settled_play(message: ClientMessage, view: &PlayerView) -> Result<Card, Error> {
    match message {
        ClientMessage::Break(card) => Ok(card),
        ClientMessage::Call(_) => bot_play(view),
    }
}

/// What is sent to a player whose decision is wanted: what is asked, and a
/// copy of what the player may see of the game.
pub fn request(action: Action, view: &PlayerView) -> (message: ServerMessage)
    ensures
        message.action == action,
        message.view.same_as(view),
{
    ServerMessage { action, view: view.copy() }
}

/// The bid that stands at once where the request for it did not go out: the
/// bot's bid. Where the request went out nothing stands yet, and the answer
/// is waited for.
pub open spec fn unsent_call(sent: Option<()>) -> Option<Result<Call, Error>> {
    match sent {
        None => Some(Ok(Call::of(1))),
        Some(_) => None,
    }
}

/// The card that stands at once where the request for it did not go out: the
/// bot's card. Where the request went out nothing stands yet, and the answer
/// is waited for.
pub open spec fn unsent_play(sent: Option<()>, view: &PlayerView) -> Option<Result<Card, Error>> {
    match sent {
        None => Some(bot_play(view)),
        Some(_) => None,
    }
}

/// Settles a request for a bid that did not go out.
pub fn settle_unsent_call(sent: Option<()>, view: &PlayerView) -> (result: Option<Result<Call, Error>>)
    ensures
        result == unsent_call(sent),
{
    match sent {
        None => {
            let mut bot = Bot;
            Some(bot.call(view))
        },
        Some(_) => None,
    }
}

/// Settles a request for a card that did not go out.
pub fn settle_unsent_play(sent: Option<()>, view: &PlayerView) -> (result: Option<Result<Card, Error>>)
    ensures
        result == unsent_play(sent, view),
{
    match sent {
        None => {
            let mut bot = Bot;
            Some(bot.play(view))
        },
        Some(_) => None,
    }
}

/// Settles a request for a bid with the answer that came.
pub fn settle_call(message: ClientMessage, view: &PlayerView) -> (result: Result<Call, Error>)
    ensures
        result == Ok::<Call, Error>(settled_call(message)),
{
    match message {
        ClientMessage::Call(call) => Ok(call),
        _ => {
            let mut bot = Bot;
            bot.call(view)
        },
    }
}

/// Settles a request for a card with the answer that came.
pub fn settle_play(message: ClientMessage, view: &PlayerView) -> (result: Result<Card, Error>)
    ensures
        result == settled_play(message, view),
{
    match message {
        ClientMessage::Break(card) => Ok(card),
        _ => {
            let mut bot = Bot;
            bot.play(view)
        },
    }
}

impl Human {
    /// What joins the human to the player: the transport over which the
    /// player is asked, as the one member of a tuple.
    pub closed spec fn link(&self) -> (Box<dyn Transport>,) {
        self.transport
    }

    /// The human who is asked over the given transport, and over no other.
    pub fn new(transport: Box<dyn Transport>) -> (human: Self)
        ensures
            human.link().0 == transport,
    {
        let link = (transport,);
        Self { transport: link }
    }

    /// Asks the player for a bid: sends the `request` for one with the view,
    /// and where it went out waits for the answer. What stands is what
    /// `settle_unsent_call` says of the sending, and else what `settle_call`
    /// says of the answer. No failure of the transport reaches the caller.
    pub fn call(&mut self, view: &PlayerView) -> (result: Result<Call, Error>)
        ensures
            result is Ok,
    {
        let sent = self.transport.0.send(request(Action::Call, view));
        match settle_unsent_call(sent, view) {
            Some(result) => result,
            None => settle_call(self.transport.0.receive(), view),
        }
    }

    /// Asks the player for a card: sends the `request` for one with the view,
    /// and where it went out waits for the answer. What stands is what
    /// `settle_unsent_play` says of the sending, and else what `settle_play`
    /// says of the answer. The only error is that of the bot that has no card.
    pub fn play(&mut self, view: &PlayerView) -> (result: Result<Card, Error>)
        ensures
            result is Err ==> result == bot_play(view),
    {
        let sent = self.transport.0.send(request(Action::Break, view));
        match settle_unsent_play(sent, view) {
            Some(result) => result,
            None => settle_play(self.transport.0.receive(), view),
        }
    }
}

impl Agent for Human {
    fn call(&mut self, view: &PlayerView) -> (result: Result<Call, Error>)
        ensures
            result is Ok,
    {
        Human::call(self, view)
    }

    fn play(&mut self, view: &PlayerView) -> (result: Result<Card, Error>)
        ensures
            result is Err ==> result == bot_play(view),
    {
        Human::play(self, view)
    }
}

} // verus!
