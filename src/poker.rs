use crate::card::Card;
use crate::deal::{hands_of, is_best, is_last_best, Deal};
use crate::deck::{positions_in_range, Deck};
use crate::error::PokerError;
use crate::hand::rank_of;
use crate::rank::rank_cmp;
use vstd::prelude::*;

verus! {

/// Who wins a two-player showdown.
#[derive(Clone, Copy, Debug, PartialEq, Eq, Structural, Hash)]
pub enum Outcome {
    FirstPlayer,
    SecondPlayer,
    Tie,
}

/// The outcome that comparing the first player's rank with the second's gives.
pub open spec fn outcome_of(o: std::cmp::Ordering) -> Outcome {
    match o {
        std::cmp::Ordering::Greater => Outcome::FirstPlayer,
        std::cmp::Ordering::Less => Outcome::SecondPlayer,
        std::cmp::Ordering::Equal => Outcome::Tie,
    }
}

/// The cards at the deck positions `perm`.
pub open spec fn cards_at(perm: Seq<u32>) -> Seq<Card> {
    Seq::new(perm.len(), |i: int| Card::at_index(perm[i] as int))
}

/// The seven cards of the first player: cards 0 and 2, then cards 4 to 8.
pub open spec fn first_seven(c: Seq<Card>) -> Seq<Card> {
    seq![c[0], c[2]] + c.subrange(4, 9)
}

/// The seven cards of the second player: cards 1 and 3, then cards 4 to 8.
pub open spec fn second_seven(c: Seq<Card>) -> Seq<Card> {
    seq![c[1], c[3]] + c.subrange(4, 9)
}

/// Of the hands `i` out of `a` and `j` out of `b`, the one of higher rank;
/// on equal ranks the second.
pub open spec fn winner(a: Seq<Card>, b: Seq<Card>, i: int, j: int) -> Seq<Card> {
    if rank_cmp(rank_of(hands_of(a)[i]), rank_of(hands_of(b)[j])) == std::cmp::Ordering::Greater {
        hands_of(a)[i]
    } else {
        hands_of(b)[j]
    }
}

/// Compares the best hands of two deals; equal ranks are a tie.
pub fn showdown(first: &Deal, second: &Deal) -> (r: Outcome)
    ensures
        exists|i: int, j: int|
            is_best(first@, i) && is_best(second@, j) && r == outcome_of(
                rank_cmp(rank_of(hands_of(first@)[i]), rank_of(hands_of(second@)[j])),
            ),
{
    let a = first.best_hand();
    let b = second.best_hand();
    match a.compare(&b) {
        std::cmp::Ordering::Greater => Outcome::FirstPlayer,
        std::cmp::Ordering::Less => Outcome::SecondPlayer,
        std::cmp::Ordering::Equal => Outcome::Tie,
    }
}

/// Deals the nine distinct deck positions `perm` to two players and returns
/// the tokens of the winning best hand; on a tie, the second player's
/// (`showdown` reports ties as such).
pub fn deal(perm: [u32; 9]) -> (r: Result<Vec<String>, PokerError>)
    ensures
        positions_in_range(perm@) && perm@.no_duplicates() <==> r.is_ok(),
        !positions_in_range(perm@) ==> r == Err::<Vec<String>, PokerError>(
            PokerError::InvalidEncoding(crate::error::EncodingKind::Card),
        ),
        positions_in_range(perm@) && !perm@.no_duplicates() ==> r == Err::<
            Vec<String>,
            PokerError,
        >(PokerError::DuplicateCard),
        r.is_ok() ==> exists|i: int, j: int|
            #![trigger is_last_best(first_seven(cards_at(perm@)), i), is_last_best(second_seven(cards_at(perm@)), j)]
            {
                &&& is_last_best(first_seven(cards_at(perm@)), i)
                &&& is_last_best(second_seven(cards_at(perm@)), j)
                &&& r->Ok_0@.len() == 5
                &&& forall|k: int|
                    0 <= k < 5 ==> (#[trigger] r->Ok_0@[k])@ == winner(
                        first_seven(cards_at(perm@)),
                        second_seven(cards_at(perm@)),
                        i,
                        j,
                    )[k].text()
            },
{
    let deck = match Deck::new(perm) {
        Ok(d) => d,
        Err(e) => return Err(e),
    };
    let players = deck.deal();
    let first = players[0];
    let second = players[1];
    let best1 = first.best_hand();
    let best2 = second.best_hand();
    let ord = best1.compare(&best2);
    let top = match ord {
        std::cmp::Ordering::Greater => best1,
        _ => best2,
    };
    let r = top.as_str_vec();
    proof {
        let c = cards_at(perm@);
        assert(deck@ =~= c);
        let a = first_seven(c);
        let b = second_seven(c);
        assert(first@ == a);
        assert(second@ == b);
        let i = choose|i: int| is_last_best(first@, i) && best1@ == hands_of(first@)[i];
        let j = choose|j: int| is_last_best(second@, j) && best2@ == hands_of(second@)[j];
        assert(is_last_best(a, i));
        assert(is_last_best(b, j));
        assert(top@ == winner(a, b, i, j));
    }
    Ok(r)
}

} // verus!
