//! Texas Hold'em hand evaluation: cards, five-card hands, their ranks, and
//! the selection of the best five-card hand out of seven cards.
pub mod card;
pub mod deal;
pub mod deck;
pub mod error;
pub mod face;
pub mod hand;
pub mod poker;
pub mod rank;
pub mod suit;
pub mod wheel;

pub use card::Card;
pub use deal::Deal;
pub use deck::Deck;
pub use error::{EncodingKind, PokerError};
pub use face::Face;
pub use hand::Hand;
pub use poker::{deal, showdown, Outcome};
pub use rank::Rank;
pub use suit::Suit;
