//! What one player may see of a game.

use vstd::prelude::*;
use crate::call::Call;
use crate::deck::Card;
use crate::game::Game;
use crate::hand::copy_of;
use crate::round::{Round, RoundId};
use crate::trick::Trick;

verus! {

/// A game, and the player who looks at it.
pub struct Context<'a> {
    game: &'a Game,
    player: &'a str,
}

impl<'a> Context<'a> {
    /// The game that is looked at.
    pub closed spec fn game(&self) -> &Game {
        self.game
    }

    /// The name of the player who looks.
    pub closed spec fn player(&self) -> Seq<char> {
        self.player@
    }

    pub fn new(game: &'a Game, player: &'a str) -> (ctx: Self)
        ensures
            ctx.game() == game,
            ctx.player() == player@,
    {
        Self { game, player }
    }
}

/// What one player may see of a game: who sits where, and of every round
/// the bids, the tricks and, for the round in progress, the player's own hand.
#[derive(Debug, Clone)]
pub struct PlayerView {
    pub players: Vec<String>,
    pub rounds: Vec<RoundView>,
}

/// What one player may see of a round.
#[derive(Debug, Clone)]
pub struct RoundView {
    pub calls: [Option<Call>; 4],
    pub hand: Vec<Card>,
    pub tricks: Vec<Trick>,
}

impl RoundView {
    /// The two views show the same bids, the same hand and the same tricks.
    pub open spec fn same_as(&self, other: &RoundView) -> bool {
        &&& self.calls@ == other.calls@
        &&& self.hand@ == other.hand@
        &&& self.tricks@ == other.tricks@
    }

    /// A copy of the view.
    pub fn copy(&self) -> (view: RoundView)
        ensures
            view.same_as(self),
    {
        let mut tricks: Vec<Trick> = Vec::new();
        let mut i: usize = 0;
        while i < self.tricks.len()
            invariant
                i <= self.tricks@.len(),
                tricks@ == self.tricks@.take(i as int),
            decreases self.tricks@.len() - i,
        {
            tricks.push(self.tricks[i]);
            assert(self.tricks@.take(i as int + 1) =~= self.tricks@.take(i as int).push(self.tricks@[i as int]));
            i += 1;
        }
        assert(self.tricks@.take(self.tricks@.len() as int) =~= self.tricks@);
        RoundView { calls: self.calls, hand: copy_of(self.hand.as_slice()), tricks }
    }

    /// The view holds the bids and the tricks of the round, and the given
    /// cards as the hand.
    pub open spec fn shows(&self, round: &Round, hand: Seq<Card>) -> bool {
        &&& forall|seat: int| 0 <= seat < 4 ==> self.calls@[seat] == round.call_of(seat)
        &&& self.hand@ == hand
        &&& self.tricks@ == round.tricks()
    }
}

impl PlayerView {
    /// The two views show the same players at the same seats, and of every
    /// round the same bids, the same hand and the same tricks.
    pub open spec fn same_as(&self, other: &PlayerView) -> bool {
        &&& self.players@.len() == other.players@.len()
        &&& forall|i: int| 0 <= i < self.players@.len() ==> (#[trigger] self.players@[i])@ == other.players@[i]@
        &&& self.rounds@.len() == other.rounds@.len()
        &&& forall|i: int| 0 <= i < self.rounds@.len() ==> (#[trigger] self.rounds@[i]).same_as(&other.rounds@[i])
    }

    /// A copy of the view.
    pub fn copy(&self) -> (view: PlayerView)
        ensures
            view.same_as(self),
    {
        let mut players: Vec<String> = Vec::new();
        let mut i: usize = 0;
        while i < self.players.len()
            invariant
                i <= self.players@.len(),
                players@.len() == i,
                forall|k: int| 0 <= k < i ==> (#[trigger] players@[k])@ == self.players@[k]@,
            decreases self.players@.len() - i,
        {
            players.push(self.players[i].clone());
            i += 1;
        }
        let mut rounds: Vec<RoundView> = Vec::new();
        let mut j: usize = 0;
        while j < self.rounds.len()
            invariant
                j <= self.rounds@.len(),
                rounds@.len() == j,
                forall|k: int| 0 <= k < j ==> (#[trigger] rounds@[k]).same_as(&self.rounds@[k]),
            decreases self.rounds@.len() - j,
        {
            rounds.push(self.rounds[j].copy());
            j += 1;
        }
        PlayerView { players, rounds }
    }

    /// The hand that the view of a player shows for round `i` of a game: the
    /// hand of the player for the round dealt last, and no card for the
    /// rounds before it.
    pub open spec fn hand_shown(game: &Game, name: Seq<char>, i: int) -> Seq<Card> {
        if i == game.rounds().len() - 1 {
            game.rounds()[i].hand(game.seat_of(name))
        } else {
            Seq::empty()
        }
    }

    /// The view is what the player of the given name may see of the game.
    pub open spec fn shows(&self, game: &Game, name: Seq<char>) -> bool {
        &&& self.players@.len() == game.roster().len()
        &&& forall|i: int| 0 <= i < self.players@.len() ==> (#[trigger] self.players@[i])@ == game.roster()[i]
        &&& self.rounds@.len() == game.rounds().len()
        &&& forall|i: int|
            0 <= i < self.rounds@.len() ==> (#[trigger] self.rounds@[i]).shows(
                &game.rounds()[i],
                PlayerView::hand_shown(game, name, i),
            )
    }

    /// What a player may see of a game. Once a round was dealt, the player has
    /// to be one of the game.
    pub fn from(ctx: Context) -> (view: PlayerView)
        requires
            ctx.game().wf(),
            ctx.game().rounds().len() > 0 ==> ctx.game().has_player(ctx.player()),
        ensures
            view.shows(ctx.game(), ctx.player()),
    {
        let Context { game, player } = ctx;
        match game.get_current_round_id() {
            Ok(current_round_id) => {
                let mut rounds: Vec<RoundView> = Vec::new();
                let last = current_round_id.index();
                let mut i: usize = 0;
                while i <= last
                    invariant
                        game.wf(),
                        game.has_player(player@),
                        last == game.rounds().len() - 1,
                        last < 5,
                        i <= last + 1,
                        rounds@.len() == i,
                        forall|k: int|
                            0 <= k < i ==> (#[trigger] rounds@[k]).shows(
                                &game.rounds()[k],
                                PlayerView::hand_shown(game, player@, k),
                            ),
                    decreases last + 1 - i,
                {
                    let round_id = match RoundId::new(i) {
                        Ok(round_id) => round_id,
                        Err(_) => {
                            return PlayerView { players: game.get_players(), rounds };
                        },
                    };
                    let hand = if i == last {
                        match game.get_hand(player) {
                            Ok(hand) => hand.to_vec(),
                            Err(_) => Vec::new(),
                        }
                    } else {
                        Vec::new()
                    };
                    let round_view = RoundView {
                        calls: game.get_calls(round_id),
                        hand,
                        tricks: game.get_tricks(round_id),
                    };
                    rounds.push(round_view);
                    i += 1;
                }
                PlayerView { players: game.get_players(), rounds }
            },
            Err(_) => PlayerView { players: game.get_players(), rounds: Vec::new() },
        }
    }
}

} // verus!
