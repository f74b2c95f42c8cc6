use vstd::prelude::*;

verus! {

/// What an unreadable encoding was meant to denote.
#[derive(Clone, Copy, Debug, PartialEq, Eq, Structural)]
pub enum EncodingKind {
    Face,
    Suit,
    Card,
}

/// The errors of this library; ties between hands are no error.
#[derive(Clone, Copy, Debug, PartialEq, Eq, Structural)]
pub enum PokerError {
    /// An unrecognised token or an index out of range.
    InvalidEncoding(EncodingKind),
    /// A hand built from other than exactly five cards.
    InvalidHandSize,
    /// A hand holding the same card twice.
    DuplicateCard,
}

} // verus!
