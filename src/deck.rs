use crate::card::Card;
use crate::deal::Deal;
use crate::error::{EncodingKind, PokerError};
use vstd::prelude::*;

verus! {

/// The nine distinct cards of a two-player deal, in dealing order: the hole
/// cards alternately, then the five community cards.
#[derive(Clone, Copy, Debug, PartialEq, Eq, Hash)]
pub struct Deck {
    cards: [Card; 9],
}

impl View for Deck {
    type V = Seq<Card>;

    closed spec fn view(&self) -> Seq<Card> {
        self.cards@
    }
}

/// Whether every position of `cards` lies in `1..=52`.
pub open spec fn positions_in_range(cards: Seq<u32>) -> bool {
    forall|i: int| 0 <= i < cards.len() ==> 1 <= #[trigger] cards[i] <= 52
}

/// Whether no position occurs twice in `cards`.
fn distinct_positions(cards: &[u32; 9]) -> (r: bool)
    ensures
        r == cards@.no_duplicates(),
{
    let mut i: usize = 0;
    while i < 9
        invariant
            i <= 9,
            cards@.len() == 9,
            forall|a: int, b: int| 0 <= a < i && a < b < 9 ==> cards@[a] != cards@[b],
        decreases 9 - i,
    {
        let mut j: usize = i + 1;
        while j < 9
            invariant
                i < j <= 9,
                cards@.len() == 9,
                forall|a: int, b: int| 0 <= a < i && a < b < 9 ==> cards@[a] != cards@[b],
                forall|b: int| i < b < j ==> cards@[i as int] != cards@[b],
            decreases 9 - j,
        {
            if cards[i] == cards[j] {
                return false;
            }
            j += 1;
        }
        i += 1;
    }
    true
}

/// Distinct positions in range give distinct cards.
proof fn lemma_distinct_positions_distinct_cards(cards: Seq<u32>)
    requires
        positions_in_range(cards),
        cards.no_duplicates(),
    ensures
        Seq::new(cards.len(), |i: int| Card::at_index(cards[i] as int)).no_duplicates(),
{
    let s = Seq::new(cards.len(), |i: int| Card::at_index(cards[i] as int));
    assert forall|a: int, b: int| 0 <= a < s.len() && 0 <= b < s.len() && a != b implies s[a]
        != s[b] by {
        crate::card::lemma_index_round_trip(cards[a] as int);
        crate::card::lemma_index_round_trip(cards[b] as int);
    }
}

impl Deck {
    /// The nine cards are distinct.
    #[verifier::type_invariant]
    spec fn distinct(&self) -> bool {
        self.cards@.no_duplicates()
    }

    /// The nine cards at the deck positions `cards`. A position outside
    /// `1..=52` is refused first; then a position given twice.
    pub fn new(cards: [u32; 9]) -> (r: Result<Deck, PokerError>)
        ensures
            positions_in_range(cards@) && cards@.no_duplicates() ==> r.is_ok() && r->Ok_0@
                == Seq::new(9, |i: int| Card::at_index(cards@[i] as int)),
            !positions_in_range(cards@) ==> r == Err::<Deck, PokerError>(
                PokerError::InvalidEncoding(EncodingKind::Card),
            ),
            positions_in_range(cards@) && !cards@.no_duplicates() ==> r == Err::<Deck, PokerError>(
                PokerError::DuplicateCard,
            ),
    {
        let mut out: Vec<Card> = Vec::new();
        let mut i: usize = 0;
        while i < 9
            invariant
                i <= 9,
                out@.len() == i,
                forall|j: int| 0 <= j < i ==> 1 <= #[trigger] cards@[j] <= 52,
                forall|j: int|
                    0 <= j < i ==> #[trigger] out@[j] == Card::at_index(cards@[j] as int),
            decreases 9 - i,
        {
            match Card::from_index(cards[i]) {
                Ok(c) => out.push(c),
                Err(e) => return Err(e),
            }
            i += 1;
        }
        if !distinct_positions(&cards) {
            return Err(PokerError::DuplicateCard);
        }
        let ghost s = Seq::new(cards@.len(), |i: int| Card::at_index(cards@[i] as int));
        proof {
            lemma_distinct_positions_distinct_cards(cards@);
        }
        let arr = [out[0], out[1], out[2], out[3], out[4], out[5], out[6], out[7], out[8]];
        assert(arr@ =~= s);
        assert(arr@.no_duplicates());
        Ok(Deck { cards: arr })
    }

    /// The two players' deals: the first gets cards 0 and 2, the second
    /// cards 1 and 3; both share cards 4 to 8.
    pub fn deal(&self) -> (r: [Deal; 2])
        ensures
            r@[0]@ == seq![self@[0], self@[2]] + self@.subrange(4, 9),
            r@[1]@ == seq![self@[1], self@[3]] + self@.subrange(4, 9),
    {
        proof {
            use_type_invariant(self);
        }
        let community = [self.cards[4], self.cards[5], self.cards[6], self.cards[7], self.cards[8]];
        assert(community@ =~= self@.subrange(4, 9));
        let hole_first = [self.cards[0], self.cards[2]];
        let hole_second = [self.cards[1], self.cards[3]];
        assert(hole_first@ =~= seq![self@[0], self@[2]]);
        assert(hole_second@ =~= seq![self@[1], self@[3]]);
        proof {
            let c = self@;
            let x = hole_first@ + community@;
            let y = hole_second@ + community@;
            assert forall|i: int| 0 <= i < 7 implies #[trigger] x[i] == c[if i == 0 {
                0
            } else if i == 1 {
                2
            } else {
                i + 2
            }] && y[i] == c[if i == 0 {
                1
            } else if i == 1 {
                3
            } else {
                i + 2
            }] by {}
            assert(x.no_duplicates());
            assert(y.no_duplicates());
        }
        let first = Deal::new(hole_first, community);
        let second = Deal::new(hole_second, community);
        [first, second]
    }
}

} // verus!
