//! The bot: a player that decides by the rules alone.

use vstd::prelude::*;
use super::Agent;
use crate::call::Call;
use crate::deck::Card;
use crate::error::Error;
use crate::game::Game;
use crate::playerview::PlayerView;

verus! {

/// A player that needs nobody: it bids one trick, and plays the first card
/// of its hand that the rules allow.
#[derive(Debug, Clone, Copy)]
pub struct Bot;

/// The card that the bot plays on a view: the first of the cards that the
/// hand of the last round may play into the last trick of that round. There is
/// none where the view has no round, where its last round has no trick, and
/// where no card may be played.
pub open spec fn bot_play(view: &PlayerView) -> Result<Card, Error> {
    if view.rounds@.len() == 0 {
        Err(Error::RoundNotInProgress)
    } else if view.rounds@.last().tricks@.len() == 0 {
        Err(Error::TrickNotInitialized)
    } else if view.rounds@.last().tricks@.last().legal_moves(view.rounds@.last().hand@).len() == 0 {
        Err(Error::NotAcceptingPlay)
    } else {
        Ok(view.rounds@.last().tricks@.last().legal_moves(view.rounds@.last().hand@)[0])
    }
}

/// The bot never plays a card that the game refuses: where a trick is in
/// progress and the view is that of the player whose turn it is, the bot has a
/// card, and the round takes it from that player's seat.
pub proof fn lemma_bot_card_is_taken(game: &Game, view: &PlayerView)
    requires
        game.wf(),
        game.stage() == crate::game::State::RoundInProgress,
        game.round_open(),
        game.rounds().last().stage() == crate::round::State::TrickInProgress,
        view.shows(game, game.roster()[game.acting_seat()]),
    ensures
        bot_play(view) is Ok,
        game.rounds().last().play_answer(bot_play(view).unwrap(), game.acting_seat()) is Ok,
{
    let round = game.rounds().last();
    let n = game.rounds().len() as int;
    assert(round.wf());
    round.lemma_can_play();
    game.lemma_seat_of(game.acting_seat());
    assert(view.rounds@[n - 1].shows(
        &game.rounds()[n - 1],
        PlayerView::hand_shown(game, game.roster()[game.acting_seat()], n - 1),
    ));
}

/// The bot's bid is always taken: while a round is in its bidding, the round
/// takes a bid from the seat whose turn it is.
pub proof fn lemma_bot_call_is_taken(game: &Game)
    requires
        game.wf(),
        game.round_open(),
        game.rounds().last().stage() == crate::round::State::Calling,
    ensures
        game.rounds().last().call_answer(game.acting_seat()) is Ok,
{
}

impl Agent for Bot {
    fn call(&mut self, _view: &PlayerView) -> (result: Result<Call, Error>)
        ensures
            result == Ok::<Call, Error>(Call::of(1)),
    {
        Call::new(1)
    }

    fn play(&mut self, view: &PlayerView) -> (result: Result<Card, Error>)
        ensures
            result == bot_play(view),
    {
        if view.rounds.len() == 0 {
            return Err(Error::RoundNotInProgress);
        }
        let round = &view.rounds[view.rounds.len() - 1];
        if round.tricks.len() == 0 {
            return Err(Error::TrickNotInitialized);
        }
        let trick = &round.tricks[round.tricks.len() - 1];
        let moves = trick.valid_plays(round.hand.as_slice());
        if moves.len() == 0 {
            return Err(Error::NotAcceptingPlay);
        }
        Ok(moves[0])
    }
}

} // verus!
