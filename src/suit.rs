use crate::error::{EncodingKind, PokerError};
use vstd::prelude::*;

verus! {

/// The four suits, in a fixed order used only to break ties in sorting.
#[derive(Clone, Copy, Debug, PartialEq, Eq, Structural, PartialOrd, Ord, Hash)]
pub enum Suit {
    Clubs,
    Diamonds,
    Hearts,
    Spades,
}

impl Suit {
    /// Position of the suit in its order, `0..4`.
    pub open spec fn index(self) -> int {
        match self {
            Suit::Clubs => 0,
            Suit::Diamonds => 1,
            Suit::Hearts => 2,
            Suit::Spades => 3,
        }
    }

    /// The suit at position `i` (meaningful for `0 <= i < 4`).
    pub open spec fn at(i: int) -> Suit {
        if i == 0 {
            Suit::Clubs
        } else if i == 1 {
            Suit::Diamonds
        } else if i == 2 {
            Suit::Hearts
        } else {
            Suit::Spades
        }
    }

    /// The one-character token of the suit.
    pub open spec fn token(self) -> char {
        match self {
            Suit::Clubs => 'C',
            Suit::Diamonds => 'D',
            Suit::Hearts => 'H',
            Suit::Spades => 'S',
        }
    }

    /// The suit whose token is `c`, if any.
    pub open spec fn of_token(c: char) -> Option<Suit> {
        if c == 'C' {
            Some(Suit::Clubs)
        } else if c == 'D' {
            Some(Suit::Diamonds)
        } else if c == 'H' {
            Some(Suit::Hearts)
        } else if c == 'S' {
            Some(Suit::Spades)
        } else {
            None
        }
    }

    pub fn to_index(&self) -> (r: u8)
        ensures
            r as int == self.index(),
    {
        match self {
            Suit::Clubs => 0,
            Suit::Diamonds => 1,
            Suit::Hearts => 2,
            Suit::Spades => 3,
        }
    }

    /// The suit at position `i`.
    pub fn of_position(i: u8) -> (r: Suit)
        requires
            i < 4,
        ensures
            r == Suit::at(i as int),
            r.index() == i,
    {
        match i {
            0 => Suit::Clubs,
            1 => Suit::Diamonds,
            2 => Suit::Hearts,
            _ => Suit::Spades,
        }
    }

    /// One zero counter for each suit, in suit order.
    pub fn counters() -> (r: [(u8, Suit); 4])
        ensures
            forall|i: int| 0 <= i < 4 ==> #[trigger] r@[i] == (0u8, Suit::at(i)),
    {
        [(0, Suit::Clubs), (0, Suit::Diamonds), (0, Suit::Hearts), (0, Suit::Spades)]
    }

    /// The suit at position `idx`; an index past the last suit is refused.
    pub fn from_index(idx: u32) -> (r: Result<Suit, PokerError>)
        ensures
            idx < 4 ==> r == Ok::<Suit, PokerError>(Suit::at(idx as int)),
            idx >= 4 ==> r == Err::<Suit, PokerError>(PokerError::InvalidEncoding(EncodingKind::Suit)),
    {
        match idx {
            0 => Ok(Suit::Clubs),
            1 => Ok(Suit::Diamonds),
            2 => Ok(Suit::Hearts),
            3 => Ok(Suit::Spades),
            _ => Err(PokerError::InvalidEncoding(EncodingKind::Suit)),
        }
    }

    /// The suit whose token is the character `c`.
    pub fn from_char(c: char) -> (r: Result<Suit, PokerError>)
        ensures
            r == match Suit::of_token(c) {
                Some(s) => Ok::<Suit, PokerError>(s),
                None => Err(PokerError::InvalidEncoding(EncodingKind::Suit)),
            },
    {
        match c {
            'C' => Ok(Suit::Clubs),
            'D' => Ok(Suit::Diamonds),
            'H' => Ok(Suit::Hearts),
            'S' => Ok(Suit::Spades),
            _ => Err(PokerError::InvalidEncoding(EncodingKind::Suit)),
        }
    }

    /// The token of the suit, as a one-character string.
    pub fn to_str(&self) -> (r: &'static str)
        ensures
            r@ == seq![self.token()],
    {
        match self {
            Suit::Clubs => {
                proof {
                    reveal_strlit("C");
                }
                "C"
            },
            Suit::Diamonds => {
                proof {
                    reveal_strlit("D");
                }
                "D"
            },
            Suit::Hearts => {
                proof {
                    reveal_strlit("H");
                }
                "H"
            },
            Suit::Spades => {
                proof {
                    reveal_strlit("S");
                }
                "S"
            },
        }
    }
}

} // verus!
