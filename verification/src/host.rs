//! The host: it asks those who decide, seat after seat, until the game is over.

use vstd::prelude::*;
use crate::agent::Agent;
use crate::error::Error;
use crate::game::{Game, State};
use crate::playerview::{Context, PlayerView};

verus! {

/// A game and those who decide for its players. The host asks each one in
/// turn and hands the game what it answers.
pub struct Host {
    agents: Vec<(String, Box<dyn Agent>)>,
    game: Game,
}

impl Default for Host {
    fn default() -> (host: Self)
        ensures
            host.wf(),
            host.game().roster().len() == 0,
            host.game().rounds().len() == 0,
    {
        Host::new()
    }
}

impl Host {
    /// The game that the host runs.
    pub closed spec fn game(&self) -> Game {
        self.game
    }

    /// The names of the players for whom somebody decides, in the order in
    /// which they came.
    pub closed spec fn agent_names(&self) -> Seq<Seq<char>> {
        Seq::new(self.agents@.len(), |i: int| self.agents@[i].0@)
    }

    /// Somebody decides for the player of this name.
    pub open spec fn has_agent(&self, name: Seq<char>) -> bool {
        self.agent_names().contains(name)
    }

    /// The game is as a game has to be, and somebody decides for each of its
    /// players.
    pub open spec fn wf(&self) -> bool {
        &&& self.game().wf()
        &&& forall|name: Seq<char>| self.game().has_player(name) ==> self.has_agent(name)
    }

    /// A host with a new game and nobody at the table.
    pub fn new() -> (host: Self)
        ensures
            host.wf(),
            host.game().roster().len() == 0,
            host.game().rounds().len() == 0,
    {
        Host { agents: Vec::new(), game: Game::new() }
    }

    /// Seats a player in the game, with the one who decides for it.
    pub fn add_agent(&mut self, id: String, agent: Box<dyn Agent>) -> (result: Result<(), Error>)
        requires
            old(self).wf(),
        ensures
            final(self).wf(),
            result == old(self).game().join_answer(id@),
            result is Err ==> final(self).game() == old(self).game(),
            result is Ok ==> {
                &&& final(self).game().rounds() == old(self).game().rounds()
                &&& final(self).game().roster().len() == old(self).game().roster().len() + 1
                &&& forall|name: Seq<char>|
                    final(self).game().has_player(name) <==> old(self).game().has_player(name) || name == id@
            },
    {
        match self.game.add_player(id.as_str()) {
            Ok(()) => {},
            Err(e) => {
                return Err(e);
            },
        }
        let ghost name = id@;
        let entry = (id, agent);
        self.agents.push(entry);
        proof {
            assert(self.agent_names() =~= old(self).agent_names().push(name));
            assert(self.agent_names().last() == name);
            assert forall|other: Seq<char>| old(self).has_agent(other) implies self.has_agent(other) by {
                let i = old(self).agent_names().index_of(other);
                assert(self.agent_names()[i] == other);
            }
        }
        Ok(())
    }

    /// Whether all four seats are taken.
    pub fn is_ready(&self) -> (ready: bool)
        ensures
            ready == (self.game().roster().len() == 4),
    {
        self.game.is_ready()
    }

    /// Whether the game was played to its end.
    pub fn is_over(&self) -> (over: bool)
        requires
            self.wf(),
        ensures
            over == (self.game().stage() == State::Over),
    {
        self.game.is_over()
    }

    /// Plays the game: five rounds, and in each round a bid from each of the
    /// four seats and then thirteen tricks of four cards, every bid and every
    /// card asked of the one who decides for the seat whose turn it is.
    ///
    /// The first answer that the game refuses ends the run with the game's
    /// error, as does a game that is not ready or was played before.
    pub fn run(&mut self) -> (result: Result<(), Error>)
        requires
            old(self).wf(),
        ensures
            final(self).wf(),
            final(self).game().roster() == old(self).game().roster(),
            final(self).game().progress() >= old(self).game().progress(),
            old(self).game().stage() != State::RoundInProgress ==> result == Err::<(), Error>(Error::NotYourTurn)
                && final(self).game() == old(self).game(),
            result is Ok ==> {
                &&& old(self).game().roster().len() == 4
                &&& old(self).game().progress() == 0
                &&& final(self).game().stage() == State::Over
            },
    {
        let mut round: usize = 0;
        while round < 5
            invariant
                round <= 5,
                self.wf(),
                self.game().roster() == old(self).game().roster(),
                self.game().progress() == old(self).game().progress() + 56 * round,
                round > 0 ==> self.game().roster().len() == 4,
                round > 0 ==> old(self).game().stage() == State::RoundInProgress,
                round == 0 ==> self.game() == old(self).game(),
            decreases 5 - round,
        {
            let mut turn: usize = 0;
            while turn < 4
                invariant
                    round < 5,
                    turn <= 4,
                    self.wf(),
                    self.game().roster() == old(self).game().roster(),
                    self.game().progress() == old(self).game().progress() + 56 * round + turn,
                    round > 0 || turn > 0 ==> self.game().roster().len() == 4,
                    round > 0 || turn > 0 ==> old(self).game().stage() == State::RoundInProgress,
                    round == 0 && turn == 0 ==> self.game() == old(self).game(),
                decreases 4 - turn,
            {
                match self.request_call() {
                    Ok(()) => {},
                    Err(e) => {
                        return Err(e);
                    },
                }
                turn += 1;
            }
            let mut trick: usize = 0;
            while trick < 13
                invariant
                    round < 5,
                    trick <= 13,
                    self.wf(),
                    self.game().roster() == old(self).game().roster(),
                    self.game().progress() == old(self).game().progress() + 56 * round + 4 + 4 * trick,
                    self.game().roster().len() == 4,
                    old(self).game().stage() == State::RoundInProgress,
                decreases 13 - trick,
            {
                let mut turn: usize = 0;
                while turn < 4
                    invariant
                        round < 5,
                        trick < 13,
                        turn <= 4,
                        self.wf(),
                        self.game().roster() == old(self).game().roster(),
                        self.game().progress() == old(self).game().progress() + 56 * round + 4 + 4 * trick + turn,
                        self.game().roster().len() == 4,
                        old(self).game().stage() == State::RoundInProgress,
                    decreases 4 - turn,
                {
                    match self.request_play() {
                        Ok(()) => {},
                        Err(e) => {
                            return Err(e);
                        },
                    }
                    turn += 1;
                }
                trick += 1;
            }
            round += 1;
        }
        proof {
            self.game().lemma_progress();
            old(self).game().lemma_progress();
        }
        Ok(())
    }

    /// A host stays in order while its game stays in order with the same
    /// players, and those who decide keep their names.
    proof fn lemma_same_table(&self, later: &Host)
        requires
            self.wf(),
            later.game().wf(),
            later.game().roster() == self.game().roster(),
            later.agent_names() == self.agent_names(),
        ensures
            later.wf(),
    {
        assert forall|name: Seq<char>| later.game().has_player(name) implies later.has_agent(name) by {
            assert(self.game().has_player(name));
            assert(self.has_agent(name));
        }
    }

    /// Where the one who decides for a player stands in the list.
    fn find_agent(&self, id: &String) -> (found: Option<usize>)
        ensures
            found matches Some(i) ==> i < self.agents@.len() && self.agent_names()[i as int] == id@,
            found is None ==> !self.has_agent(id@),
    {
        let mut i: usize = 0;
        while i < self.agents.len()
            invariant
                i <= self.agents@.len(),
                forall|k: int| 0 <= k < i ==> self.agent_names()[k] != id@,
            decreases self.agents@.len() - i,
        {
            if self.agents[i].0 == *id {
                return Some(i);
            }
            i += 1;
        }
        None
    }

    /// Asks for the bid of the seat whose turn it is, and hands it to the
    /// game.
    fn request_call(&mut self) -> (result: Result<(), Error>)
        requires
            old(self).wf(),
        ensures
            final(self).wf(),
            final(self).game().roster() == old(self).game().roster(),
            final(self).game().progress() == old(self).game().progress() + if result is Ok {
                1int
            } else {
                0int
            },
            result is Ok ==> old(self).game().roster().len() == 4,
            old(self).game().stage() != State::RoundInProgress ==> result == Err::<(), Error>(Error::NotYourTurn)
                && final(self).game() == old(self).game(),
    {
        let player = match self.game.turn() {
            Ok(player) => player,
            Err(e) => {
                return Err(e);
            },
        };
        proof {
            self.game().lemma_seat_of(self.game().acting_seat());
        }
        let at = match self.find_agent(&player) {
            Some(at) => at,
            None => {
                return Err(Error::PlayerNotInGame);
            },
        };
        let view = PlayerView::from(Context::new(&self.game, player.as_str()));
        let answer = self.agents[at].1.call(&view);
        proof {
            assert(self.agent_names() =~= old(self).agent_names());
            old(self).lemma_same_table(self);
        }
        let call = match answer {
            Ok(call) => call,
            Err(e) => {
                return Err(e);
            },
        };
        let result = self.game.call(player.as_str(), call);
        proof {
            old(self).lemma_same_table(self);
        }
        result
    }

    /// Asks for the card of the seat whose turn it is, and hands it to the
    /// game.
    fn request_play(&mut self) -> (result: Result<(), Error>)
        requires
            old(self).wf(),
        ensures
            final(self).wf(),
            final(self).game().roster() == old(self).game().roster(),
            final(self).game().progress() == old(self).game().progress() + if result is Ok {
                1int
            } else {
                0int
            },
            result is Ok ==> old(self).game().roster().len() == 4,
            old(self).game().stage() != State::RoundInProgress ==> result == Err::<(), Error>(Error::NotYourTurn)
                && final(self).game() == old(self).game(),
    {
        let player = match self.game.turn() {
            Ok(player) => player,
            Err(e) => {
                return Err(e);
            },
        };
        proof {
            self.game().lemma_seat_of(self.game().acting_seat());
        }
        let at = match self.find_agent(&player) {
            Some(at) => at,
            None => {
                return Err(Error::PlayerNotInGame);
            },
        };
        let view = PlayerView::from(Context::new(&self.game, player.as_str()));
        let answer = self.agents[at].1.play(&view);
        proof {
            assert(self.agent_names() =~= old(self).agent_names());
            old(self).lemma_same_table(self);
        }
        let card = match answer {
            Ok(card) => card,
            Err(e) => {
                return Err(e);
            },
        };
        let result = self.game.play(player.as_str(), card);
        proof {
            old(self).lemma_same_table(self);
        }
        result
    }
}

} // verus!
