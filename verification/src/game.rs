//! The game: the players at the table and the rounds they play.

use vstd::prelude::*;
use crate::call::Call;
use crate::deck::Card;
use crate::error::Error;
use crate::hand::Hand;
use crate::player::Player;
use crate::round::{Round, RoundId};
use crate::shuffle::{lemma_same_items, shuffle};
use crate::trick::Trick;
use crate::turn::Turn;

verus! {

/// A game: up to four players and up to five rounds.
#[derive(Debug, Clone)]
pub struct Game {
    players: Vec<Player>,
    rounds: Vec<Round>,
}

/// Where a game stands. It goes from the lobby to play to its end, never
/// back.
#[derive(Debug, Clone, Copy, PartialEq, Eq, Structural, PartialOrd, Ord)]
pub enum State {
    Lobby,
    RoundInProgress,
    Over,
}

/// The names of some players, in their order.
pub open spec fn names(players: Seq<Player>) -> Seq<Seq<char>> {
    Seq::new(players.len(), |i: int| players[i].id())
}

/// Players whose names are all different are still so in any other order.
proof fn lemma_names_permuted(before: Seq<Player>, after: Seq<Player>)
    requires
        before.to_multiset() == after.to_multiset(),
        names(before).no_duplicates(),
    ensures
        names(after).no_duplicates(),
        names(after).len() == names(before).len(),
        forall|name: Seq<char>| names(after).contains(name) <==> names(before).contains(name),
{
    lemma_same_items(before, after);
    assert forall|i: int, j: int| 0 <= i < before.len() && 0 <= j < before.len() && i != j implies before[i]
        != before[j] by {
        assert(names(before)[i] != names(before)[j]);
    }
    assert forall|i: int, j: int| 0 <= i < after.len() && 0 <= j < after.len() && i != j implies names(after)[i]
        != names(after)[j] by {
        assert(after.contains(after[i]));
        assert(after.contains(after[j]));
        let p = choose|p: int| 0 <= p < before.len() && before[p] == after[i];
        let q = choose|q: int| 0 <= q < before.len() && before[q] == after[j];
        assert(names(before)[p] != names(before)[q]);
    }
    assert forall|name: Seq<char>| names(after).contains(name) <==> names(before).contains(name) by {
        if names(after).contains(name) {
            let i = choose|i: int| 0 <= i < names(after).len() && names(after)[i] == name;
            assert(after.contains(after[i]));
            let p = choose|p: int| 0 <= p < before.len() && before[p] == after[i];
            assert(names(before)[p] == name);
        }
        if names(before).contains(name) {
            let i = choose|i: int| 0 <= i < names(before).len() && names(before)[i] == name;
            assert(before.contains(before[i]));
            let p = choose|p: int| 0 <= p < after.len() && after[p] == before[i];
            assert(names(after)[p] == name);
        }
    }
}

impl Default for Game {
    fn default() -> (game: Self)
        ensures
            game.wf(),
            game.roster().len() == 0,
            game.rounds().len() == 0,
    {
        Game::new()
    }
}

impl Game {
    /// The names of the players, seat by seat.
    pub closed spec fn roster(&self) -> Seq<Seq<char>> {
        names(self.players@)
    }

    /// The rounds of the game, the one in progress last.
    pub closed spec fn rounds(&self) -> Seq<Round> {
        self.rounds@
    }

    /// A player of this name sits at the table.
    pub open spec fn has_player(&self, name: Seq<char>) -> bool {
        self.roster().contains(name)
    }

    /// The seat of the player of a given name, for a player at the table.
    pub open spec fn seat_of(&self, name: Seq<char>) -> int {
        self.roster().index_of(name)
    }

    /// Where the game stands: in the lobby while a seat is empty, over once
    /// the fifth round is over, and in play between the two.
    pub open spec fn stage(&self) -> State {
        if self.roster().len() < 4 {
            State::Lobby
        } else if self.rounds().len() == 5 && self.rounds()[4].stage() == crate::round::State::Over {
            State::Over
        } else {
            State::RoundInProgress
        }
    }

    /// A round was dealt and is not over.
    pub open spec fn round_open(&self) -> bool {
        self.rounds().len() > 0 && self.rounds().last().stage() != crate::round::State::Over
    }

    /// The seat whose turn it is while the game is in play: the seat that the
    /// round in progress waits for, and between two rounds the seat that will
    /// start the next one.
    pub open spec fn acting_seat(&self) -> int {
        if self.round_open() {
            self.rounds().last().acting_seat()
        } else {
            self.rounds().len() as int % 4
        }
    }

    /// What holds of every game: no two players have one name; no round is
    /// dealt before the fourth player sits; there are five rounds at most;
    /// round `i` is started by seat `i` modulo four; and every round but the
    /// last is over.
    pub open spec fn wf(&self) -> bool {
        &&& self.roster().len() <= 4
        &&& self.roster().no_duplicates()
        &&& self.rounds().len() <= 5
        &&& (self.roster().len() < 4 ==> self.rounds().len() == 0)
        &&& forall|i: int|
            0 <= i < self.rounds().len() ==> {
                &&& (#[trigger] self.rounds()[i]).wf()
                &&& self.rounds()[i].starter().seat() == i % 4
            }
        &&& forall|i: int|
            0 <= i < self.rounds().len() - 1 ==> (#[trigger] self.rounds()[i]).stage() == crate::round::State::Over
    }

    /// What `add_player` answers to a name.
    pub open spec fn join_answer(&self, name: Seq<char>) -> Result<(), Error> {
        if self.stage() != State::Lobby {
            Err(Error::NotAcceptingNewPlayers)
        } else if self.has_player(name) {
            Err(Error::PlayerAlreadyInGame)
        } else {
            Ok(())
        }
    }

    /// What `get_turn` answers to a name.
    pub open spec fn seat_answer(&self, name: Seq<char>) -> Result<int, Error> {
        if self.stage() != State::RoundInProgress {
            Err(Error::NotYourTurn)
        } else if !self.has_player(name) {
            Err(Error::PlayerNotInGame)
        } else {
            Ok(self.seat_of(name))
        }
    }

    /// A game with no player and no round.
    pub fn new() -> (game: Self)
        ensures
            game.wf(),
            game.roster().len() == 0,
            game.rounds().len() == 0,
            game.stage() == State::Lobby,
    {
        Game { players: Vec::new(), rounds: Vec::new() }
    }

    /// Where the game stands.
    pub fn state(&self) -> (state: State)
        requires
            self.wf(),
        ensures
            state == self.stage(),
    {
        if self.players.len() < 4 {
            State::Lobby
        } else if self.rounds.len() == 5 && self.rounds[4].is_over() {
            State::Over
        } else {
            State::RoundInProgress
        }
    }

    /// Seats a player. The first three to come sit in the order in which they
    /// came; with the fourth the seats are drawn by lot, and stay as drawn for
    /// the whole game.
    pub fn add_player(&mut self, id: &str) -> (result: Result<(), Error>)
        requires
            old(self).wf(),
        ensures
            final(self).wf(),
            result == old(self).join_answer(id@),
            result is Err ==> *final(self) == *old(self),
            result is Ok ==> {
                &&& final(self).rounds() == old(self).rounds()
                &&& final(self).roster().len() == old(self).roster().len() + 1
                &&& forall|name: Seq<char>|
                    final(self).has_player(name) <==> old(self).has_player(name) || name == id@
                &&& (final(self).roster().len() < 4 ==> final(self).roster() == old(self).roster().push(id@))
            },
    {
        match self.state() {
            State::Lobby => {
                if self.find(id).is_some() {
                    return Err(Error::PlayerAlreadyInGame);
                }
                self.players.push(Player::new(id));
                let ghost seated = self.players@;
                proof {
                    assert(names(seated) =~= old(self).roster().push(id@));
                    assert forall|name: Seq<char>| names(seated).contains(name) <==> old(self).has_player(name)
                        || name == id@ by {
                        if names(seated).contains(name) {
                            let i = choose|i: int| 0 <= i < names(seated).len() && names(seated)[i] == name;
                            if i < old(self).roster().len() {
                                assert(old(self).roster()[i] == name);
                            }
                        }
                        if old(self).has_player(name) {
                            let i = choose|i: int| 0 <= i < old(self).roster().len() && old(self).roster()[i] == name;
                            assert(names(seated)[i] == name);
                        }
                        if name == id@ {
                            assert(names(seated)[seated.len() - 1] == name);
                        }
                    }
                    assert(names(seated).no_duplicates()) by {
                        assert forall|i: int, j: int|
                            0 <= i < seated.len() && 0 <= j < seated.len() && i != j implies names(seated)[i] != names(
                            seated,
                        )[j] by {
                            if i < seated.len() - 1 && j < seated.len() - 1 {
                                assert(old(self).roster()[i] != old(self).roster()[j]);
                            } else if i < seated.len() - 1 {
                                assert(old(self).roster()[i] == names(seated)[i]);
                            } else {
                                assert(old(self).roster()[j] == names(seated)[j]);
                            }
                        }
                    }
                }
                if self.players.len() == 4 {
                    let mut rng = rand::rng();
                    shuffle(&mut self.players, &mut rng);
                    proof {
                        lemma_names_permuted(seated, self.players@);
                    }
                }
                Ok(())
            },
            _ => Err(Error::NotAcceptingNewPlayers),
        }
    }

    /// The seat at which a player of this name sits, if one does.
    pub fn find(&self, id: &str) -> (seat: Option<usize>)
        ensures
            seat is Some <==> self.has_player(id@),
            seat matches Some(i) ==> i < self.roster().len() && self.roster()[i as int] == id@,
            self.roster().no_duplicates() && self.has_player(id@) ==> seat == Some(self.seat_of(id@) as usize),
    {
        let wanted = id.to_owned();
        let mut i: usize = 0;
        while i < self.players.len()
            invariant
                i <= self.players@.len(),
                wanted@ == id@,
                forall|k: int| 0 <= k < i ==> self.roster()[k] != id@,
            decreases self.players@.len() - i,
        {
            if self.players[i].is_named(&wanted) {
                assert(self.roster()[i as int] == id@);
                return Some(i);
            }
            i += 1;
        }
        None
    }

    /// The seat of a player, while the game is in play.
    pub fn get_turn(&self, player_id: &str) -> (result: Result<Turn, Error>)
        requires
            self.wf(),
        ensures
            match result {
                Ok(turn) => turn.wf() && self.seat_answer(player_id@) == Ok::<int, Error>(turn.seat())
                    && self.roster()[turn.seat()] == player_id@,
                Err(e) => self.seat_answer(player_id@) == Err::<int, Error>(e),
            },
    {
        match self.state() {
            State::RoundInProgress => {
                match self.find(player_id) {
                    Some(seat) => Ok(Turn::new(seat)),
                    None => Err(Error::PlayerNotInGame),
                }
            },
            _ => Err(Error::NotYourTurn),
        }
    }

    /// What was done in the game so far: 56 steps for each round that is
    /// over, and the steps of the round in progress.
    pub open spec fn progress(&self) -> int {
        if self.rounds().len() == 0 {
            0
        } else {
            56 * (self.rounds().len() - 1) + self.rounds().last().progress()
        }
    }

    /// Nothing but the last round differs between two games.
    pub open spec fn same_but_last_round(&self, before: &Game) -> bool {
        &&& self.roster() == before.roster()
        &&& self.rounds().len() == before.rounds().len()
        &&& forall|i: int| 0 <= i < self.rounds().len() - 1 ==> self.rounds()[i] == before.rounds()[i]
    }

    /// This game is `before` with one more round.
    pub open spec fn with_new_round(&self, before: &Game) -> bool {
        &&& self.roster() == before.roster()
        &&& self.rounds().len() == before.rounds().len() + 1
        &&& forall|i: int| 0 <= i < before.rounds().len() ==> self.rounds()[i] == before.rounds()[i]
    }

    /// Takes the bid of a player.
    ///
    /// While a round is in progress the bid goes to that round. Between two
    /// rounds a new round is dealt first, started by the seat of its number
    /// modulo four, and the bid goes to it: the round stays in the game also
    /// where it refuses the bid. Where no valid deal comes about the answer is
    /// `ImpossibleCondition` and nothing has changed.
    pub fn call(&mut self, player_id: &str, call: Call) -> (result: Result<(), Error>)
        requires
            old(self).wf(),
        ensures
            final(self).wf(),
            final(self).roster() == old(self).roster(),
            final(self).progress() == old(self).progress() + if result is Ok {
                1int
            } else {
                0int
            },
            match old(self).seat_answer(player_id@) {
                Err(e) => result == Err::<(), Error>(e) && *final(self) == *old(self),
                Ok(seat) => if old(self).round_open() {
                    &&& final(self).same_but_last_round(old(self))
                    &&& result == old(self).rounds().last().call_answer(seat)
                    &&& final(self).rounds().last().follows_call(&old(self).rounds().last(), seat, call)
                } else {
                    ||| result == Err::<(), Error>(Error::ImpossibleCondition) && *final(self) == *old(self)
                    ||| {
                        &&& final(self).with_new_round(old(self))
                        &&& exists|dealt: Round|
                            {
                                &&& #[trigger] dealt.is_fresh(Turn::of(old(self).rounds().len() as int % 4))
                                &&& result == dealt.call_answer(seat)
                                &&& final(self).rounds().last().follows_call(&dealt, seat, call)
                            }
                    }
                },
            },
    {
        let turn = match self.get_turn(player_id) {
            Ok(turn) => turn,
            Err(e) => {
                return Err(e);
            },
        };
        let n = self.rounds.len();
        if n > 0 && !self.rounds[n - 1].is_over() {
            let result = self.rounds[n - 1].call(call, turn);
            proof {
                old(self).lemma_last_round_went_on(self);
            }
            result
        } else {
            let starter = Turn::new(n);
            let mut round = match Round::new(starter) {
                Ok(round) => round,
                Err(e) => {
                    return Err(e);
                },
            };
            let ghost dealt = round;
            let result = round.call(call, turn);
            self.rounds.push(round);
            proof {
                assert(dealt.is_fresh(Turn::of(n as int % 4)));
                old(self).lemma_round_added(self);
            }
            result
        }
    }

    /// Takes a card from a player, for the round that was dealt last.
    pub fn play(&mut self, player_id: &str, card: Card) -> (result: Result<(), Error>)
        requires
            old(self).wf(),
        ensures
            final(self).wf(),
            final(self).roster() == old(self).roster(),
            final(self).progress() == old(self).progress() + if result is Ok {
                1int
            } else {
                0int
            },
            match old(self).seat_answer(player_id@) {
                Err(e) => result == Err::<(), Error>(e) && *final(self) == *old(self),
                Ok(seat) => if old(self).rounds().len() == 0 {
                    result == Err::<(), Error>(Error::NotAcceptingPlay) && *final(self) == *old(self)
                } else {
                    &&& final(self).same_but_last_round(old(self))
                    &&& result == old(self).rounds().last().play_answer(card, seat)
                    &&& final(self).rounds().last().follows_play(&old(self).rounds().last(), seat, card)
                },
            },
    {
        let turn = match self.get_turn(player_id) {
            Ok(turn) => turn,
            Err(e) => {
                return Err(e);
            },
        };
        let n = self.rounds.len();
        if n > 0 {
            let result = self.rounds[n - 1].play(card, turn);
            proof {
                old(self).lemma_last_round_went_on(self);
            }
            result
        } else {
            Err(Error::NotAcceptingPlay)
        }
    }

    /// The name of the player whose turn it is, while the game is in play.
    pub fn turn(&self) -> (result: Result<String, Error>)
        requires
            self.wf(),
        ensures
            match result {
                Ok(id) => {
                    &&& self.stage() == State::RoundInProgress
                    &&& 0 <= self.acting_seat() < 4
                    &&& id@ == self.roster()[self.acting_seat()]
                },
                Err(e) => self.stage() != State::RoundInProgress && e == Error::NotYourTurn,
            },
    {
        match self.state() {
            State::RoundInProgress => {
                let n = self.rounds.len();
                let seat = if n > 0 && !self.rounds[n - 1].is_over() {
                    match self.rounds[n - 1].turn() {
                        Ok(turn) => turn,
                        Err(_) => {
                            return Err(Error::NotYourTurn);
                        },
                    }
                } else {
                    Turn::new(n)
                };
                Ok(self.players[seat.index()].get_id().to_owned())
            },
            _ => Err(Error::NotYourTurn),
        }
    }

    /// Whether the fifth round is over.
    pub fn is_over(&self) -> (over: bool)
        requires
            self.wf(),
        ensures
            over == (self.stage() == State::Over),
    {
        self.state() == State::Over
    }

    /// Whether all four seats are taken.
    pub fn is_ready(&self) -> (ready: bool)
        ensures
            ready == (self.roster().len() == 4),
    {
        self.players.len() == 4
    }

    /// The names of the players, seat by seat.
    pub fn get_players(&self) -> (players: Vec<String>)
        ensures
            players@.len() == self.roster().len(),
            forall|i: int| 0 <= i < players@.len() ==> (#[trigger] players@[i])@ == self.roster()[i],
    {
        let mut players: Vec<String> = Vec::new();
        let mut i: usize = 0;
        while i < self.players.len()
            invariant
                i <= self.players@.len(),
                players@.len() == i,
                forall|k: int| 0 <= k < i ==> (#[trigger] players@[k])@ == self.roster()[k],
            decreases self.players@.len() - i,
        {
            players.push(self.players[i].get_id().to_owned());
            i += 1;
        }
        players
    }

    /// The number of the round that was dealt last.
    pub fn get_current_round_id(&self) -> (result: Result<RoundId, Error>)
        requires
            self.wf(),
        ensures
            match result {
                Ok(id) => id.wf() && id.number() == self.rounds().len() - 1,
                Err(e) => self.rounds().len() == 0 && e == Error::RoundNotInProgress,
            },
    {
        if self.rounds.len() == 0 {
            Err(Error::RoundNotInProgress)
        } else {
            RoundId::new(self.rounds.len() - 1)
        }
    }

    /// The bids of a round that was dealt.
    pub fn get_calls(&self, round_id: RoundId) -> (calls: [Option<Call>; 4])
        requires
            round_id.number() < self.rounds().len(),
        ensures
            forall|seat: int| 0 <= seat < 4 ==> calls@[seat] == self.rounds()[round_id.number()].call_of(seat),
    {
        self.rounds[round_id.index()].get_calls()
    }

    /// The tricks of a round that was dealt.
    pub fn get_tricks(&self, round_id: RoundId) -> (tricks: Vec<Trick>)
        requires
            round_id.number() < self.rounds().len(),
        ensures
            tricks@ == self.rounds()[round_id.number()].tricks(),
    {
        self.rounds[round_id.index()].get_tricks()
    }

    /// The hand that a player holds in the round that was dealt last.
    pub fn get_hand(&self, player_id: &str) -> (result: Result<Hand, Error>)
        requires
            self.wf(),
        ensures
            match result {
                Ok(hand) => {
                    &&& self.rounds().len() > 0
                    &&& self.has_player(player_id@)
                    &&& hand@ == self.rounds().last().hand(self.seat_of(player_id@))
                },
                Err(e) => if self.rounds().len() == 0 {
                    e == Error::RoundNotInProgress
                } else {
                    !self.has_player(player_id@) && e == Error::PlayerNotInGame
                },
            },
    {
        let n = self.rounds.len();
        if n == 0 {
            return Err(Error::RoundNotInProgress);
        }
        match self.find(player_id) {
            Some(seat) => Ok(self.rounds[n - 1].get_hand(Turn::new(seat))),
            None => Err(Error::PlayerNotInGame),
        }
    }

    /// A game stays in order when its last round goes on in order, led by the
    /// same seat, and nothing else changes.
    proof fn lemma_last_round_went_on(&self, later: &Game)
        requires
            self.wf(),
            self.rounds().len() > 0,
            later.same_but_last_round(self),
            later.rounds().last().wf(),
            later.rounds().last().starter() == self.rounds().last().starter(),
        ensures
            later.wf(),
    {
        let n = self.rounds().len() as int;
        assert forall|i: int| 0 <= i < later.rounds().len() implies (#[trigger] later.rounds()[i]).wf()
            && later.rounds()[i].starter().seat() == i % 4 by {
            if i < n - 1 {
                assert(later.rounds()[i] == self.rounds()[i]);
            } else {
                assert(self.rounds()[i].wf());
            }
        }
        assert forall|i: int| 0 <= i < later.rounds().len() - 1 implies (#[trigger] later.rounds()[i]).stage()
            == crate::round::State::Over by {
            assert(later.rounds()[i] == self.rounds()[i]);
        }
    }

    /// A game stays in order when, between two rounds and before the fifth,
    /// a round in order is added that the seat of its number leads.
    proof fn lemma_round_added(&self, later: &Game)
        requires
            self.wf(),
            self.stage() == State::RoundInProgress,
            !self.round_open(),
            later.with_new_round(self),
            later.rounds().last().wf(),
            later.rounds().last().starter().seat() == self.rounds().len() % 4,
        ensures
            later.wf(),
    {
        let n = self.rounds().len() as int;
        assert forall|i: int| 0 <= i < later.rounds().len() implies (#[trigger] later.rounds()[i]).wf()
            && later.rounds()[i].starter().seat() == i % 4 by {
            if i < n {
                assert(later.rounds()[i] == self.rounds()[i]);
            }
        }
        assert forall|i: int| 0 <= i < later.rounds().len() - 1 implies (#[trigger] later.rounds()[i]).stage()
            == crate::round::State::Over by {
            assert(later.rounds()[i] == self.rounds()[i]);
        }
    }

    /// A game is made of 280 steps, 56 for each of its five rounds, and is
    /// over after the last.
    pub proof fn lemma_progress(&self)
        requires
            self.wf(),
        ensures
            0 <= self.progress() <= 280,
            self.roster().len() == 4 ==> (self.stage() == State::Over <==> self.progress() == 280),
    {
        if self.rounds().len() > 0 {
            self.rounds().last().lemma_progress();
        }
    }

    /// The seat of a player is the place of its name in the roster.
    pub proof fn lemma_seat_of(&self, seat: int)
        requires
            self.roster().no_duplicates(),
            0 <= seat < self.roster().len(),
        ensures
            self.has_player(self.roster()[seat]),
            self.seat_of(self.roster()[seat]) == seat,
    {
        let name = self.roster()[seat];
        assert(self.roster().contains(name));
        let i = self.roster().index_of(name);
        assert(self.roster()[i] == name);
    }

    /// Once a game is over it takes no player, no bid and no card, and no
    /// further round is dealt: it stays as it is.
    pub proof fn lemma_over_is_final(&self, name: Seq<char>)
        requires
            self.stage() == State::Over,
        ensures
            self.join_answer(name) == Err::<(), Error>(Error::NotAcceptingNewPlayers),
            self.seat_answer(name) == Err::<int, Error>(Error::NotYourTurn),
    {
    }
}

} // verus!
