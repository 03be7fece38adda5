//! Errors.

use vstd::prelude::*;

verus! {

/// Everything that the engine can answer in place of doing what was asked.
#[derive(Clone, Copy, Debug, PartialEq, Eq, Structural)]
pub enum Error {
    // Call errors
    CallValueTooLarge,
    CallValueTooSmall,
    // Hand errors
    HandIsFull,
    HandHasCardAlready,
    HandDoesNotHaveThisCard,
    RequiresFaceCard,
    RequiresSpades,
    Not13Cards,
    HasDuplicateCards,
    // Player errors
    PlayerAlreadyCalled,
    TurnIsAlreadySet,
    // Round errors
    AllCallsNeededBeforeAnyPlay,
    RoundIsOver,
    PlayerCalledOutOfTurn,
    PlayerPlayedOutOfTurn,
    InvalidRoundId,
    // Trick errors
    TrickNotInitialized,
    InvalidPlay,
    TrickIsOver,
    NoTrickWinnerYet,
    // Turn errors
    InvalidValueForTurn,
    NotYourTurn,
    // Game errors
    NotAcceptingNewPlayers,
    NotAcceptingCalls,
    NotAcceptingPlay,
    GameHasMaxPossiblePlayers,
    NotEnoughPlayers,
    PlayerAlreadyInGame,
    PlayerNotInGame,
    RoundIsNotOver,
    RoundNotInProgress,
    GameOver,
    // Miscellaneous
    ImpossibleCondition,
    // Agent errors
    AgentSend,
    AgentRecv,
}

} // verus!
