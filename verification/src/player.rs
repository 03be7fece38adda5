//! Players.

use vstd::prelude::*;

verus! {

/// Who sits at the table: a player is known by its name.
#[derive(Debug, PartialEq, Eq, Clone)]
pub struct Player {
    id: String,
}

impl Player {
    /// The name of the player.
    pub closed spec fn id(&self) -> Seq<char> {
        self.id@
    }

    pub fn new(id: &str) -> (player: Self)
        ensures
            player.id() == id@,
    {
        Player { id: id.to_owned() }
    }

    pub fn get_id(&self) -> (id: &str)
        ensures
            id@ == self.id(),
    {
        self.id.as_str()
    }

    /// Whether the player has the given name.
    pub fn is_named(&self, id: &String) -> (same: bool)
        ensures
            same == (self.id() == id@),
    {
        self.id == *id
    }

}

} // verus!
