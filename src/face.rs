use crate::error::{EncodingKind, PokerError};
use vstd::prelude::*;

verus! {

/// The thirteen faces, from the weakest to the strongest.
#[derive(Clone, Copy, Debug, PartialEq, Eq, Structural, PartialOrd, Ord, Hash)]
pub enum Face {
    Two,
    Three,
    Four,
    Five,
    Six,
    Seven,
    Eight,
    Nine,
    Ten,
    Jack,
    Queen,
    King,
    Ace,
}

impl Face {
    /// Strength of the face: `0` for Two up to `12` for Ace.
    pub open spec fn value(self) -> int {
        match self {
            Face::Two => 0,
            Face::Three => 1,
            Face::Four => 2,
            Face::Five => 3,
            Face::Six => 4,
            Face::Seven => 5,
            Face::Eight => 6,
            Face::Nine => 7,
            Face::Ten => 8,
            Face::Jack => 9,
            Face::Queen => 10,
            Face::King => 11,
            Face::Ace => 12,
        }
    }

    /// The face of strength `v` (meaningful for `0 <= v < 13`).
    pub open spec fn at(v: int) -> Face {
        if v <= 0 {
            Face::Two
        } else if v == 1 {
            Face::Three
        } else if v == 2 {
            Face::Four
        } else if v == 3 {
            Face::Five
        } else if v == 4 {
            Face::Six
        } else if v == 5 {
            Face::Seven
        } else if v == 6 {
            Face::Eight
        } else if v == 7 {
            Face::Nine
        } else if v == 8 {
            Face::Ten
        } else if v == 9 {
            Face::Jack
        } else if v == 10 {
            Face::Queen
        } else if v == 11 {
            Face::King
        } else {
            Face::Ace
        }
    }

    /// Position of the face in the deck numbering: Ace is `0`, Two `1`, ..., King `12`.
    pub open spec fn index(self) -> int {
        if self == Face::Ace {
            0
        } else {
            self.value() + 1
        }
    }

    /// The face at position `i` of the deck numbering (meaningful for `0 <= i < 13`).
    pub open spec fn at_index(i: int) -> Face {
        if i == 0 {
            Face::Ace
        } else {
            Face::at(i - 1)
        }
    }

    /// The one-character token of the face.
    pub open spec fn token(self) -> char {
        match self {
            Face::Two => '2',
            Face::Three => '3',
            Face::Four => '4',
            Face::Five => '5',
            Face::Six => '6',
            Face::Seven => '7',
            Face::Eight => '8',
            Face::Nine => '9',
            Face::Ten => 'T',
            Face::Jack => 'J',
            Face::Queen => 'Q',
            Face::King => 'K',
            Face::Ace => 'A',
        }
    }

    /// The face whose token is `c`, if any.
    pub open spec fn of_token(c: char) -> Option<Face> {
        if c == '2' {
            Some(Face::Two)
        } else if c == '3' {
            Some(Face::Three)
        } else if c == '4' {
            Some(Face::Four)
        } else if c == '5' {
            Some(Face::Five)
        } else if c == '6' {
            Some(Face::Six)
        } else if c == '7' {
            Some(Face::Seven)
        } else if c == '8' {
            Some(Face::Eight)
        } else if c == '9' {
            Some(Face::Nine)
        } else if c == 'T' {
            Some(Face::Ten)
        } else if c == 'J' {
            Some(Face::Jack)
        } else if c == 'Q' {
            Some(Face::Queen)
        } else if c == 'K' {
            Some(Face::King)
        } else if c == 'A' {
            Some(Face::Ace)
        } else {
            None
        }
    }

    pub fn is_ace(&self) -> (r: bool)
        ensures
            r == (*self == Face::Ace),
    {
        *self == Face::Ace
    }

    /// The strength of the face as a small integer.
    pub fn strength(&self) -> (r: u8)
        ensures
            r as int == self.value(),
    {
        match self {
            Face::Two => 0,
            Face::Three => 1,
            Face::Four => 2,
            Face::Five => 3,
            Face::Six => 4,
            Face::Seven => 5,
            Face::Eight => 6,
            Face::Nine => 7,
            Face::Ten => 8,
            Face::Jack => 9,
            Face::Queen => 10,
            Face::King => 11,
            Face::Ace => 12,
        }
    }

    /// The face of strength `v`.
    pub fn of_strength(v: u8) -> (r: Face)
        requires
            v < 13,
        ensures
            r == Face::at(v as int),
            r.value() == v,
    {
        match v {
            0 => Face::Two,
            1 => Face::Three,
            2 => Face::Four,
            3 => Face::Five,
            4 => Face::Six,
            5 => Face::Seven,
            6 => Face::Eight,
            7 => Face::Nine,
            8 => Face::Ten,
            9 => Face::Jack,
            10 => Face::Queen,
            11 => Face::King,
            _ => Face::Ace,
        }
    }

    /// One zero counter for each face, from Two up to Ace.
    pub fn counters() -> (r: [(u8, Face); 13])
        ensures
            forall|v: int| 0 <= v < 13 ==> #[trigger] r@[v] == (0u8, Face::at(v)),
    {
        [
            (0, Face::Two),
            (0, Face::Three),
            (0, Face::Four),
            (0, Face::Five),
            (0, Face::Six),
            (0, Face::Seven),
            (0, Face::Eight),
            (0, Face::Nine),
            (0, Face::Ten),
            (0, Face::Jack),
            (0, Face::Queen),
            (0, Face::King),
            (0, Face::Ace),
        ]
    }

    /// The face at position `idx` of the deck numbering (Ace first); a larger index is refused.
    pub fn from_index(idx: u32) -> (r: Result<Face, PokerError>)
        ensures
            idx < 13 ==> r == Ok::<Face, PokerError>(Face::at_index(idx as int)),
            idx >= 13 ==> r == Err::<Face, PokerError>(PokerError::InvalidEncoding(EncodingKind::Face)),
    {
        match idx {
            0 => Ok(Face::Ace),
            1 => Ok(Face::Two),
            2 => Ok(Face::Three),
            3 => Ok(Face::Four),
            4 => Ok(Face::Five),
            5 => Ok(Face::Six),
            6 => Ok(Face::Seven),
            7 => Ok(Face::Eight),
            8 => Ok(Face::Nine),
            9 => Ok(Face::Ten),
            10 => Ok(Face::Jack),
            11 => Ok(Face::Queen),
            12 => Ok(Face::King),
            _ => Err(PokerError::InvalidEncoding(EncodingKind::Face)),
        }
    }

    /// The position of the face in the deck numbering.
    pub fn to_index(&self) -> (r: u8)
        ensures
            r as int == self.index(),
    {
        match self {
            Face::Ace => 0,
            _ => self.strength() + 1,
        }
    }

    /// The face whose token is the character `c`.
    pub fn from_char(c: char) -> (r: Result<Face, PokerError>)
        ensures
            r == match Face::of_token(c) {
                Some(f) => Ok::<Face, PokerError>(f),
                None => Err(PokerError::InvalidEncoding(EncodingKind::Face)),
            },
    {
        match c {
            '2' => Ok(Face::Two),
            '3' => Ok(Face::Three),
            '4' => Ok(Face::Four),
            '5' => Ok(Face::Five),
            '6' => Ok(Face::Six),
            '7' => Ok(Face::Seven),
            '8' => Ok(Face::Eight),
            '9' => Ok(Face::Nine),
            'T' => Ok(Face::Ten),
            'J' => Ok(Face::Jack),
            'Q' => Ok(Face::Queen),
            'K' => Ok(Face::King),
            'A' => Ok(Face::Ace),
            _ => Err(PokerError::InvalidEncoding(EncodingKind::Face)),
        }
    }

    /// The token of the face, as a one-character string.
    pub fn to_str(&self) -> (r: &'static str)
        ensures
            r@ == seq![self.token()],
    {
        match self {
            Face::Two => {
                proof {
                    reveal_strlit("2");
                }
                "2"
            },
            Face::Three => {
                proof {
                    reveal_strlit("3");
                }
                "3"
            },
            Face::Four => {
                proof {
                    reveal_strlit("4");
                }
                "4"
            },
            Face::Five => {
                proof {
                    reveal_strlit("5");
                }
                "5"
            },
            Face::Six => {
                proof {
                    reveal_strlit("6");
                }
                "6"
            },
            Face::Seven => {
                proof {
                    reveal_strlit("7");
                }
                "7"
            },
            Face::Eight => {
                proof {
                    reveal_strlit("8");
                }
                "8"
            },
            Face::Nine => {
                proof {
                    reveal_strlit("9");
                }
                "9"
            },
            Face::Ten => {
                proof {
                    reveal_strlit("T");
                }
                "T"
            },
            Face::Jack => {
                proof {
                    reveal_strlit("J");
                }
                "J"
            },
            Face::Queen => {
                proof {
                    reveal_strlit("Q");
                }
                "Q"
            },
            Face::King => {
                proof {
                    reveal_strlit("K");
                }
                "K"
            },
            Face::Ace => {
                proof {
                    reveal_strlit("A");
                }
                "A"
            },
        }
    }
}

} // verus!
