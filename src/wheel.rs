use crate::card::Card;
use crate::face::Face;
use crate::hand::{face_count, face_counts, is_flush, rank_of, suit_count, suit_counts};
use crate::rank::{classify, pairs_from, pairs_straight, rank_cmp, sorted_pairs, wheel_rotated, with_count};
use crate::suit::Suit;
use vstd::prelude::*;

verus! {

/// Five cards of the suit `u` with the faces of strength `f`.
pub open spec fn suited(u: Suit, f: Seq<int>) -> Seq<Card> {
    Seq::new(5, |i: int| Card { suit: u, face: Face::at(f[i]) })
}

/// Ace, Five, Four, Three and Two of the suit `u`.
pub open spec fn wheel(u: Suit) -> Seq<Card> {
    suited(u, seq![12int, 3, 2, 1, 0])
}

/// Ten, Nine, Eight, Seven and Six of the suit `u`.
pub open spec fn ten_high_run(u: Suit) -> Seq<Card> {
    suited(u, seq![8int, 7, 6, 5, 4])
}

/// Ace, King, Queen, Jack and Ten of the suit `u`.
pub open spec fn royal_run(u: Suit) -> Seq<Card> {
    suited(u, seq![12int, 11, 10, 9, 8])
}

proof fn lemma_one_suit_is_flush(s: Seq<Card>, u: Suit)
    requires
        s.len() == 5,
        forall|i: int| 0 <= i < 5 ==> (#[trigger] s[i]).suit == u,
    ensures
        is_flush(s),
{
    reveal_with_fuel(suit_count, 6);
    let sc = suit_counts(s);
    reveal_with_fuel(with_count, 5);
    reveal_with_fuel(pairs_from, 7);
    assert(s[0].suit == u && s[1].suit == u && s[2].suit == u && s[3].suit == u && s[4].suit == u);
    match u {
        Suit::Clubs => {
            assert(sc =~= seq![5int, 0, 0, 0]);
        },
        Suit::Diamonds => {
            assert(sc =~= seq![0int, 5, 0, 0]);
        },
        Suit::Hearts => {
            assert(sc =~= seq![0int, 0, 5, 0]);
        },
        Suit::Spades => {
            assert(sc =~= seq![0int, 0, 0, 5]);
        },
    }
    assert(with_count(sc, 5, 4).len() > 0);
    assert(sorted_pairs(sc)[0].0 == 5);
}

proof fn lemma_five_faces(s: Seq<Card>, f: Seq<int>, c: Seq<int>)
    requires
        s.len() == 5,
        f.len() == 5,
        forall|i: int| 0 <= i < 5 ==> (#[trigger] s[i]).face.value() == f[i],
        c.len() == 13,
        forall|v: int|
            0 <= v < 13 ==> #[trigger] c[v] == (if v == f[0] || v == f[1] || v == f[2] || v == f[3]
                || v == f[4] {
                1int
            } else {
                0int
            }),
        forall|i: int, j: int| 0 <= i < j < 5 ==> f[i] != f[j],
    ensures
        face_counts(s) == c,
{
    reveal_with_fuel(face_count, 6);
    assert(s[0].face.value() == f[0] && s[1].face.value() == f[1] && s[2].face.value() == f[2]
        && s[3].face.value() == f[3] && s[4].face.value() == f[4]);
    assert(face_counts(s) =~= c);
}

proof fn lemma_single_pairs(c: Seq<int>, p: Seq<(int, int)>)
    requires
        c.len() == 13,
        forall|v: int| 0 <= v < 13 ==> 0 <= #[trigger] c[v] <= 1,
        with_count(c, 1, 13) == p,
    ensures
        forall|i: int| 0 <= i < p.len() ==> #[trigger] sorted_pairs(c)[i] == p[i],
        sorted_pairs(c).len() >= p.len(),
{
    reveal_with_fuel(with_count, 14);
    reveal_with_fuel(pairs_from, 7);
    assert(with_count(c, 5, 13).len() == 0);
    assert(with_count(c, 4, 13).len() == 0);
    assert(with_count(c, 3, 13).len() == 0);
    assert(with_count(c, 2, 13).len() == 0);
    assert(pairs_from(c, 1, 13) =~= p);
    assert(sorted_pairs(c) == p + with_count(c, 0, 13));
}

proof fn lemma_run_rank(u: Suit, f: Seq<int>, c: Seq<int>, p: Seq<(int, int)>)
    requires
        f.len() == 5,
        forall|i: int| 0 <= i < 5 ==> 0 <= #[trigger] f[i] < 13,
        forall|i: int, j: int| 0 <= i < j < 5 ==> f[i] != f[j],
        c.len() == 13,
        forall|v: int|
            0 <= v < 13 ==> #[trigger] c[v] == (if v == f[0] || v == f[1] || v == f[2] || v == f[3]
                || v == f[4] {
                1int
            } else {
                0int
            }),
        with_count(c, 1, 13) == p,
        p.len() == 5,
    ensures
        rank_of(suited(u, f)) == classify(
            wheel_rotated(sorted_pairs(c)),
            true,
            pairs_straight(sorted_pairs(c)),
        ),
        forall|i: int| 0 <= i < 5 ==> #[trigger] sorted_pairs(c)[i] == p[i],
        sorted_pairs(c).len() >= 5,
{
    let s = suited(u, f);
    assert forall|i: int| 0 <= i < 5 implies (#[trigger] s[i]).face.value() == f[i] by {
        assert(Face::at(f[i]).value() == f[i]);
    }
    lemma_five_faces(s, f, c);
    lemma_one_suit_is_flush(s, u);
    lemma_single_pairs(c, p);
    let q = sorted_pairs(c);
    assert(q[0] == p[0] && q[1] == p[1] && q[2] == p[2] && q[3] == p[3] && q[4] == p[4]);
}

proof fn lemma_wheel_rank(u: Suit)
    ensures
        rank_of(wheel(u)) == (8int, seq![3int]),
{
    let c = seq![1int, 1, 1, 1, 0, 0, 0, 0, 0, 0, 0, 0, 1];
    let p = seq![(1int, 12int), (1, 3), (1, 2), (1, 1), (1, 0)];
    reveal_with_fuel(with_count, 14);
    assert(with_count(c, 1, 13) =~= p);
    lemma_run_rank(u, seq![12int, 3, 2, 1, 0], c, p);
    let q = sorted_pairs(c);
    assert(q[0] == p[0] && q[1] == p[1] && q[2] == p[2] && q[3] == p[3] && q[4] == p[4]);
    let w = wheel_rotated(q);
    assert(w[0] == q[1] && w[1] == q[2] && w[2] == q[3] && w[3] == q[4]);
}

proof fn lemma_ten_high_rank(u: Suit)
    ensures
        rank_of(ten_high_run(u)) == (8int, seq![8int]),
{
    let c = seq![0int, 0, 0, 0, 1, 1, 1, 1, 1, 0, 0, 0, 0];
    let p = seq![(1int, 8int), (1, 7), (1, 6), (1, 5), (1, 4)];
    reveal_with_fuel(with_count, 14);
    assert(with_count(c, 1, 13) =~= p);
    lemma_run_rank(u, seq![8int, 7, 6, 5, 4], c, p);
    let q = sorted_pairs(c);
    assert(q[0] == p[0] && q[1] == p[1] && q[2] == p[2] && q[3] == p[3] && q[4] == p[4]);
    assert(wheel_rotated(q) == q);
}

proof fn lemma_royal_rank(u: Suit)
    ensures
        rank_of(royal_run(u)) == (9int, Seq::<int>::empty()),
{
    let c = seq![0int, 0, 0, 0, 0, 0, 0, 0, 1, 1, 1, 1, 1];
    let p = seq![(1int, 12int), (1, 11), (1, 10), (1, 9), (1, 8)];
    reveal_with_fuel(with_count, 14);
    assert(with_count(c, 1, 13) =~= p);
    lemma_run_rank(u, seq![12int, 11, 10, 9, 8], c, p);
    let q = sorted_pairs(c);
    assert(q[0] == p[0] && q[1] == p[1] && q[2] == p[2] && q[3] == p[3] && q[4] == p[4]);
    assert(wheel_rotated(q) == q);
}

/// The wheel, Ace to Five of one suit, is a straight flush ranked by its
/// Five: below the straight flush from Six to Ten and below the royal flush.
pub proof fn lemma_wheel_is_lowest_straight_flush(u: Suit)
    ensures
        rank_of(wheel(u)) == (8int, seq![3int]),
        rank_of(ten_high_run(u)) == (8int, seq![8int]),
        rank_of(royal_run(u)) == (9int, Seq::<int>::empty()),
        rank_cmp(rank_of(wheel(u)), rank_of(ten_high_run(u))) == std::cmp::Ordering::Less,
        rank_cmp(rank_of(wheel(u)), rank_of(royal_run(u))) == std::cmp::Ordering::Less,
{
    lemma_wheel_rank(u);
    lemma_ten_high_rank(u);
    lemma_royal_rank(u);
    assert(seq![3int][0] == 3 && seq![8int][0] == 8);
}

} // verus!
