//! Ranks.

use vstd::prelude::*;

verus! {

/// The thirteen ranks of a suit, from the lowest to the highest.
#[derive(Debug, Clone, Copy, PartialEq, Eq, Structural, PartialOrd, Ord, Hash)]
pub enum Rank {
    Two,
    Three,
    Four,
    Five,
    Six,
    Seven,
    Eight,
    Nine,
    Ten,
    Jack,
    Queen,
    King,
    Ace,
}

impl Rank {
    /// The strength of a rank within its suit: 2 for a Two up to 14 for an Ace.
    pub open spec fn strength(self) -> int {
        match self {
            Rank::Two => 2,
            Rank::Three => 3,
            Rank::Four => 4,
            Rank::Five => 5,
            Rank::Six => 6,
            Rank::Seven => 7,
            Rank::Eight => 8,
            Rank::Nine => 9,
            Rank::Ten => 10,
            Rank::Jack => 11,
            Rank::Queen => 12,
            Rank::King => 13,
            Rank::Ace => 14,
        }
    }

    /// A Jack, Queen, King or Ace.
    pub open spec fn is_face(self) -> bool {
        self.strength() >= 11
    }

    /// The rank at a position of the ascending list of ranks, counted from zero.
    pub open spec fn at(index: int) -> Rank {
        if index == 0 {
            Rank::Two
        } else if index == 1 {
            Rank::Three
        } else if index == 2 {
            Rank::Four
        } else if index == 3 {
            Rank::Five
        } else if index == 4 {
            Rank::Six
        } else if index == 5 {
            Rank::Seven
        } else if index == 6 {
            Rank::Eight
        } else if index == 7 {
            Rank::Nine
        } else if index == 8 {
            Rank::Ten
        } else if index == 9 {
            Rank::Jack
        } else if index == 10 {
            Rank::Queen
        } else if index == 11 {
            Rank::King
        } else {
            Rank::Ace
        }
    }

    pub fn value(&self) -> (value: u8)
        ensures
            value == self.strength(),
            2 <= value <= 14,
    {
        match self {
            Rank::Two => 2,
            Rank::Three => 3,
            Rank::Four => 4,
            Rank::Five => 5,
            Rank::Six => 6,
            Rank::Seven => 7,
            Rank::Eight => 8,
            Rank::Nine => 9,
            Rank::Ten => 10,
            Rank::Jack => 11,
            Rank::Queen => 12,
            Rank::King => 13,
            Rank::Ace => 14,
        }
    }

    /// The rank of a given strength, if there is one.
    pub fn from_value(value: u8) -> (rank: Option<Rank>)
        ensures
            rank is Some <==> 2 <= value <= 14,
            rank matches Some(r) ==> r.strength() == value && r == Rank::at(value - 2),
    {
        match value {
            2 => Some(Rank::Two),
            3 => Some(Rank::Three),
            4 => Some(Rank::Four),
            5 => Some(Rank::Five),
            6 => Some(Rank::Six),
            7 => Some(Rank::Seven),
            8 => Some(Rank::Eight),
            9 => Some(Rank::Nine),
            10 => Some(Rank::Ten),
            11 => Some(Rank::Jack),
            12 => Some(Rank::Queen),
            13 => Some(Rank::King),
            14 => Some(Rank::Ace),
            _ => None,
        }
    }

    /// Whether this rank counts as a face card when a deal is validated.
    pub fn face(&self) -> (face: bool)
        ensures
            face == self.is_face(),
    {
        self.value() >= 11
    }

    /// How a rank is written out: its number, or the first letter of its name.
    pub open spec fn name(self) -> Seq<char> {
        match self {
            Rank::Two => "2"@,
            Rank::Three => "3"@,
            Rank::Four => "4"@,
            Rank::Five => "5"@,
            Rank::Six => "6"@,
            Rank::Seven => "7"@,
            Rank::Eight => "8"@,
            Rank::Nine => "9"@,
            Rank::Ten => "10"@,
            Rank::Jack => "J"@,
            Rank::Queen => "Q"@,
            Rank::King => "K"@,
            Rank::Ace => "A"@,
        }
    }

    /// The rank written out.
    pub fn to_string(&self) -> (text: String)
        ensures
            text@ == self.name(),
    {
        let name = match self {
            Rank::Two => "2",
            Rank::Three => "3",
            Rank::Four => "4",
            Rank::Five => "5",
            Rank::Six => "6",
            Rank::Seven => "7",
            Rank::Eight => "8",
            Rank::Nine => "9",
            Rank::Ten => "10",
            Rank::Jack => "J",
            Rank::Queen => "Q",
            Rank::King => "K",
            Rank::Ace => "A",
        };
        name.to_owned()
    }

    /// Every rank sits at the position that its strength gives it.
    pub proof fn lemma_at_strength(self)
        ensures
            Rank::at(self.strength() - 2) == self,
    {
    }
}

} // verus!
