use crate::error::{EncodingKind, PokerError};
use crate::face::Face;
use crate::suit::Suit;
use vstd::prelude::*;
use vstd::string::{StrSliceExecFns, StringExecFns};

verus! {

/// A playing card: a face and a suit.
#[derive(Clone, Copy, Debug, PartialEq, Eq, Structural, Hash)]
pub struct Card {
    pub suit: Suit,
    pub face: Face,
}

impl Card {
    /// Position of the card in the deck numbering `1..=52`: suits in order,
    /// thirteen cards each, Ace first within a suit.
    pub open spec fn index(self) -> int {
        self.suit.index() * 13 + self.face.index() + 1
    }

    /// The card at position `i` of the deck numbering (meaningful for `1 <= i <= 52`).
    pub open spec fn at_index(i: int) -> Card {
        Card { suit: Suit::at((i - 1) / 13), face: Face::at_index((i - 1) % 13) }
    }

    /// The two-character token of the card: face, then suit.
    pub open spec fn text(self) -> Seq<char> {
        seq![self.face.token(), self.suit.token()]
    }

    /// The card that a two-character token denotes, if any.
    pub open spec fn of_text(s: Seq<char>) -> Option<Card> {
        if s.len() != 2 {
            None
        } else {
            match (Face::of_token(s[0]), Suit::of_token(s[1])) {
                (Some(f), Some(u)) => Some(Card { suit: u, face: f }),
                _ => None,
            }
        }
    }

    /// What reading the token `s` gives: the card, or the error for the first
    /// part that cannot be read.
    pub open spec fn parse_result(s: Seq<char>) -> Result<Card, PokerError> {
        if s.len() != 2 {
            Err(PokerError::InvalidEncoding(EncodingKind::Card))
        } else if Face::of_token(s[0]).is_none() {
            Err(PokerError::InvalidEncoding(EncodingKind::Face))
        } else if Suit::of_token(s[1]).is_none() {
            Err(PokerError::InvalidEncoding(EncodingKind::Suit))
        } else {
            Ok(Card::of_text(s).unwrap())
        }
    }

    pub fn new(suit: Suit, face: Face) -> (r: Card)
        ensures
            r == (Card { suit, face }),
    {
        Card { suit, face }
    }

    pub fn suit(&self) -> (r: Suit)
        ensures
            r == self.suit,
    {
        self.suit
    }

    pub fn face(&self) -> (r: Face)
        ensures
            r == self.face,
    {
        self.face
    }

    /// The card at position `idx` of the deck numbering; positions outside
    /// `1..=52` are refused.
    pub fn from_index(idx: u32) -> (r: Result<Card, PokerError>)
        ensures
            1 <= idx <= 52 ==> r == Ok::<Card, PokerError>(Card::at_index(idx as int)),
            !(1 <= idx <= 52) ==> r == Err::<Card, PokerError>(
                PokerError::InvalidEncoding(EncodingKind::Card),
            ),
    {
        if idx == 0 || idx > 52 {
            return Err(PokerError::InvalidEncoding(EncodingKind::Card));
        }
        let suit = match Suit::from_index((idx - 1) / 13) {
            Ok(s) => s,
            Err(e) => return Err(e),
        };
        let face = match Face::from_index((idx - 1) % 13) {
            Ok(f) => f,
            Err(e) => return Err(e),
        };
        Ok(Card { suit, face })
    }

    /// The position of the card in the deck numbering.
    pub fn to_index(&self) -> (r: u32)
        ensures
            r as int == self.index(),
            1 <= r <= 52,
    {
        self.suit.to_index() as u32 * 13 + self.face.to_index() as u32 + 1
    }

    /// Reads a two-character token such as `"AS"` or `"TD"`.
    pub fn parse(s: &str) -> (r: Result<Card, PokerError>)
        ensures
            r == Card::parse_result(s@),
    {
        if s.unicode_len() != 2 {
            return Err(PokerError::InvalidEncoding(EncodingKind::Card));
        }
        let face = match Face::from_char(s.get_char(0)) {
            Ok(f) => f,
            Err(e) => return Err(e),
        };
        let suit = match Suit::from_char(s.get_char(1)) {
            Ok(u) => u,
            Err(e) => return Err(e),
        };
        Ok(Card { suit, face })
    }

    /// Appends the card's token to `out`.
    pub fn write_to(&self, out: &mut String)
        ensures
            final(out)@ == old(out)@ + self.text(),
    {
        out.append(self.face.to_str());
        out.append(self.suit.to_str());
    }

    /// The card's token, such as `"AS"`.
    pub fn to_string(&self) -> (r: String)
        ensures
            r@ == self.text(),
    {
        let mut out = String::new();
        self.write_to(&mut out);
        out
    }
}

impl std::str::FromStr for Card {
    type Err = PokerError;

    fn from_str(s: &str) -> Result<Card, PokerError> {
        Card::parse(s)
    }
}

/// Numbering the deck and reading the number back gives the same position.
pub proof fn lemma_index_round_trip(i: int)
    requires
        1 <= i <= 52,
    ensures
        Card::at_index(i).index() == i,
{
}

/// Reading back the number of a card gives the same card.
pub proof fn lemma_card_index_round_trip(c: Card)
    ensures
        1 <= c.index() <= 52,
        Card::at_index(c.index()) == c,
{
}

/// A valid token, read and written out again, is the same token.
pub proof fn lemma_token_round_trip(s: Seq<char>)
    requires
        Card::of_text(s).is_some(),
    ensures
        Card::parse_result(s) == Ok::<Card, PokerError>(Card::of_text(s).unwrap()),
        Card::of_text(s).unwrap().text() == s,
{
    assert(Card::of_text(s).unwrap().text() =~= s);
}

/// Writing out a card and reading the token gives the same card.
pub proof fn lemma_card_text_round_trip(c: Card)
    ensures
        Card::of_text(c.text()) == Some(c),
{
}

} // verus!
