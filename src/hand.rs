use crate::card::Card;
use crate::error::{EncodingKind, PokerError};
use crate::face::Face;
use crate::rank::{classify, pairs_straight, rank_cmp, sort_counts, sorted_pairs, wheel_rotated, Rank};
use crate::suit::Suit;
use vstd::multiset::Multiset;
use vstd::prelude::*;
use vstd::string::{StrSliceExecFns, StringExecFns};

verus! {

broadcast use vstd::seq_lib::group_to_multiset_ensures;

/// How many cards of `s` have the face of strength `v`.
pub open spec fn face_count(s: Seq<Card>, v: int) -> int
    decreases s.len(),
{
    if s.len() == 0 {
        0
    } else {
        face_count(s.drop_last(), v) + if s.last().face.value() == v {
            1int
        } else {
            0int
        }
    }
}

/// How many cards of `s` have the suit at position `u`.
pub open spec fn suit_count(s: Seq<Card>, u: int) -> int
    decreases s.len(),
{
    if s.len() == 0 {
        0
    } else {
        suit_count(s.drop_last(), u) + if s.last().suit.index() == u {
            1int
        } else {
            0int
        }
    }
}

/// The thirteen face counters of `s`, by strength.
pub open spec fn face_counts(s: Seq<Card>) -> Seq<int> {
    Seq::new(13, |v: int| face_count(s, v))
}

/// The four suit counters of `s`, by suit position.
pub open spec fn suit_counts(s: Seq<Card>) -> Seq<int> {
    Seq::new(4, |u: int| suit_count(s, u))
}

/// Whether the most common suit of the five cards `s` covers all five.
pub open spec fn is_flush(s: Seq<Card>) -> bool {
    sorted_pairs(suit_counts(s))[0].0 == 5
}

/// The face pairs of `s` sorted by count, then face, descending, with the
/// wheel's Ace moved from the top to the end.
pub open spec fn lead_pairs(s: Seq<Card>) -> Seq<(int, int)> {
    wheel_rotated(sorted_pairs(face_counts(s)))
}

/// Whether the five cards `s` have five faces in a run, Ace-Five-Four-Three-Two
/// included.
pub open spec fn is_straight_run(s: Seq<Card>) -> bool {
    pairs_straight(sorted_pairs(face_counts(s)))
}

/// The rank of the five cards `s`, as `(category, key)`.
pub open spec fn rank_of(s: Seq<Card>) -> (int, Seq<int>) {
    classify(lead_pairs(s), is_flush(s), is_straight_run(s))
}

/// The cards of `s` with the face of strength `v`, in their order in `s`.
pub open spec fn face_block(s: Seq<Card>, v: int) -> Seq<Card>
    decreases s.len(),
{
    if s.len() == 0 {
        seq![]
    } else if s.last().face.value() == v {
        face_block(s.drop_last(), v).push(s.last())
    } else {
        face_block(s.drop_last(), v)
    }
}

/// The cards of `s` with a face of strength at least `n`, strongest face
/// first, cards of one face in their order in `s`.
pub open spec fn desc_from(s: Seq<Card>, n: int) -> Seq<Card>
    decreases 13 - n,
{
    if n >= 13 {
        seq![]
    } else {
        desc_from(s, n + 1) + face_block(s, n)
    }
}

/// `s` sorted by face, strongest first; cards of one face keep their order.
pub open spec fn by_face_desc(s: Seq<Card>) -> Seq<Card> {
    desc_from(s, 0)
}

/// Whether the faces of `s` never get stronger from one card to the next.
pub open spec fn faces_descending(s: Seq<Card>) -> bool {
    forall|i: int, j: int| 0 <= i < j < s.len() ==> s[i].face.value() >= s[j].face.value()
}

/// The text of five cards: their tokens, separated by single spaces.
pub open spec fn hand_text(s: Seq<Card>) -> Seq<char> {
    s[0].text() + seq![' '] + s[1].text() + seq![' '] + s[2].text() + seq![' '] + s[3].text()
        + seq![' '] + s[4].text()
}

/// What reading a hand from text gives: fourteen characters, five card
/// tokens at offsets 0, 3, 6, 9 and 12 with single spaces between them.
pub open spec fn hand_parse_result(t: Seq<char>) -> Result<Seq<Card>, PokerError> {
    if t.len() != 14 {
        Err(PokerError::InvalidHandSize)
    } else if t[2] != ' ' || t[5] != ' ' || t[8] != ' ' || t[11] != ' ' {
        Err(PokerError::InvalidEncoding(EncodingKind::Card))
    } else {
        let r0 = Card::parse_result(t.subrange(0, 2));
        let r1 = Card::parse_result(t.subrange(3, 5));
        let r2 = Card::parse_result(t.subrange(6, 8));
        let r3 = Card::parse_result(t.subrange(9, 11));
        let r4 = Card::parse_result(t.subrange(12, 14));
        if r0.is_err() {
            Err(r0->Err_0)
        } else if r1.is_err() {
            Err(r1->Err_0)
        } else if r2.is_err() {
            Err(r2->Err_0)
        } else if r3.is_err() {
            Err(r3->Err_0)
        } else if r4.is_err() {
            Err(r4->Err_0)
        } else {
            let s = seq![r0->Ok_0, r1->Ok_0, r2->Ok_0, r3->Ok_0, r4->Ok_0];
            if s.no_duplicates() {
                Ok(by_face_desc(s))
            } else {
                Err(PokerError::DuplicateCard)
            }
        }
    }
}

proof fn lemma_face_block_take(s: Seq<Card>, j: int, v: int)
    requires
        0 <= j < s.len(),
    ensures
        face_block(s.take(j + 1), v) == if s[j].face.value() == v {
            face_block(s.take(j), v).push(s[j])
        } else {
            face_block(s.take(j), v)
        },
{
    assert(s.take(j + 1).drop_last() =~= s.take(j));
}

/// Each card of a face block has that face.
proof fn lemma_face_block_faces(s: Seq<Card>, v: int)
    ensures
        forall|i: int|
            0 <= i < face_block(s, v).len() ==> (#[trigger] face_block(s, v)[i]).face.value() == v,
    decreases s.len(),
{
    if s.len() > 0 {
        lemma_face_block_faces(s.drop_last(), v);
    }
}

/// Sorting by face puts the strongest faces first.
proof fn lemma_desc_from_sorted(s: Seq<Card>, n: int)
    requires
        0 <= n <= 13,
    ensures
        faces_descending(desc_from(s, n)),
        forall|i: int|
            0 <= i < desc_from(s, n).len() ==> (#[trigger] desc_from(s, n)[i]).face.value() >= n,
    decreases 13 - n,
{
    if n < 13 {
        lemma_desc_from_sorted(s, n + 1);
        lemma_face_block_faces(s, n);
        let a = desc_from(s, n + 1);
        let b = face_block(s, n);
        let d = desc_from(s, n);
        assert(d == a + b);
        assert forall|i: int| 0 <= i < d.len() implies (#[trigger] d[i]).face.value() >= n by {
            if i >= a.len() {
                assert(d[i] == b[i - a.len()]);
            }
        }
        assert forall|i: int, j: int| 0 <= i < j < d.len() implies d[i].face.value()
            >= d[j].face.value() by {
            if j < a.len() {
            } else if i >= a.len() {
                assert(d[i] == b[i - a.len()]);
                assert(d[j] == b[j - a.len()]);
            } else {
                assert(d[j] == b[j - a.len()]);
            }
        }
    }
}

/// A face block holds, of each card with that face, as many copies as `s`.
proof fn lemma_face_block_multiset(s: Seq<Card>, v: int, c: Card)
    ensures
        face_block(s, v).to_multiset().count(c) == if c.face.value() == v {
            s.to_multiset().count(c)
        } else {
            0
        },
    decreases s.len(),
{
    if s.len() > 0 {
        lemma_face_block_multiset(s.drop_last(), v, c);
        assert(s =~= s.drop_last().push(s.last()));
    }
}

proof fn lemma_desc_from_multiset(s: Seq<Card>, n: int, c: Card)
    requires
        0 <= n <= 13,
    ensures
        desc_from(s, n).to_multiset().count(c) == if c.face.value() >= n {
            s.to_multiset().count(c)
        } else {
            0
        },
    decreases 13 - n,
{
    if n < 13 {
        lemma_desc_from_multiset(s, n + 1, c);
        lemma_face_block_multiset(s, n, c);
        vstd::seq_lib::lemma_multiset_commutative(desc_from(s, n + 1), face_block(s, n));
    }
}

/// Sorting by face keeps every card, as often as it occurs.
pub proof fn lemma_by_face_desc_multiset(s: Seq<Card>)
    ensures
        by_face_desc(s).to_multiset() == s.to_multiset(),
        by_face_desc(s).len() == s.len(),
        faces_descending(by_face_desc(s)),
{
    assert forall|c: Card| #[trigger] by_face_desc(s).to_multiset().count(c)
        == s.to_multiset().count(c) by {
        lemma_desc_from_multiset(s, 0, c);
    }
    assert(by_face_desc(s).to_multiset() =~= s.to_multiset());
    vstd::seq_lib::to_multiset_len(s);
    vstd::seq_lib::to_multiset_len(by_face_desc(s));
    lemma_desc_from_sorted(s, 0);
}

/// How many cards of the multiset `m` have the face of strength `v`.
pub open spec fn face_mcount(m: Multiset<Card>, v: int) -> int {
    (m.count(Card { suit: Suit::Clubs, face: Face::at(v) }) + m.count(
        Card { suit: Suit::Diamonds, face: Face::at(v) },
    ) + m.count(Card { suit: Suit::Hearts, face: Face::at(v) }) + m.count(
        Card { suit: Suit::Spades, face: Face::at(v) },
    )) as int
}

/// How many cards of the multiset `m` have the suit at position `u` and a
/// face of strength below `n`.
pub open spec fn suit_mcount(m: Multiset<Card>, u: int, n: int) -> int
    decreases n,
{
    if n <= 0 {
        0
    } else {
        suit_mcount(m, u, n - 1) + m.count(Card { suit: Suit::at(u), face: Face::at(n - 1) })
    }
}

proof fn lemma_face_count_multiset(s: Seq<Card>, v: int)
    requires
        0 <= v < 13,
    ensures
        face_count(s, v) == face_mcount(s.to_multiset(), v),
    decreases s.len(),
{
    if s.len() == 0 {
        assert(s.to_multiset() =~= Multiset::empty());
    } else {
        lemma_face_count_multiset(s.drop_last(), v);
        assert(s =~= s.drop_last().push(s.last()));
    }
}

proof fn lemma_suit_mcount_empty(u: int, n: int)
    ensures
        suit_mcount(Multiset::empty(), u, n) == 0,
    decreases n,
{
    if n > 0 {
        lemma_suit_mcount_empty(u, n - 1);
    }
}

proof fn lemma_suit_mcount_insert(m: Multiset<Card>, x: Card, u: int, n: int)
    requires
        0 <= n <= 13,
    ensures
        suit_mcount(m.insert(x), u, n) == suit_mcount(m, u, n) + if x.suit == Suit::at(u)
            && x.face.value() < n {
            1int
        } else {
            0int
        },
    decreases n,
{
    if n > 0 {
        lemma_suit_mcount_insert(m, x, u, n - 1);
    }
}

proof fn lemma_suit_count_multiset(s: Seq<Card>, u: int)
    requires
        0 <= u < 4,
    ensures
        suit_count(s, u) == suit_mcount(s.to_multiset(), u, 13),
    decreases s.len(),
{
    if s.len() == 0 {
        assert(s.to_multiset() =~= Multiset::empty());
        lemma_suit_mcount_empty(u, 13);
    } else {
        lemma_suit_count_multiset(s.drop_last(), u);
        assert(s =~= s.drop_last().push(s.last()));
        lemma_suit_mcount_insert(s.drop_last().to_multiset(), s.last(), u, 13);
    }
}

/// The rank of five cards depends only on which cards they are, not on
/// their order: two arrangements of the same cards rank alike, and so do the
/// hands sorted from them.
pub proof fn lemma_rank_order_invariant(a: Seq<Card>, b: Seq<Card>)
    requires
        a.to_multiset() == b.to_multiset(),
    ensures
        rank_of(a) == rank_of(b),
        rank_of(by_face_desc(a)) == rank_of(a),
        rank_of(by_face_desc(a)) == rank_of(by_face_desc(b)),
{
    lemma_same_cards_same_counts(a, b);
    lemma_by_face_desc_multiset(a);
    lemma_same_cards_same_counts(by_face_desc(a), a);
    lemma_by_face_desc_multiset(b);
    lemma_same_cards_same_counts(by_face_desc(b), b);
}

proof fn lemma_same_cards_same_counts(a: Seq<Card>, b: Seq<Card>)
    requires
        a.to_multiset() == b.to_multiset(),
    ensures
        face_counts(a) == face_counts(b),
        suit_counts(a) == suit_counts(b),
        rank_of(a) == rank_of(b),
{
    assert forall|v: int| 0 <= v < 13 implies face_count(a, v) == face_count(b, v) by {
        lemma_face_count_multiset(a, v);
        lemma_face_count_multiset(b, v);
    }
    assert forall|u: int| 0 <= u < 4 implies suit_count(a, u) == suit_count(b, u) by {
        lemma_suit_count_multiset(a, u);
        lemma_suit_count_multiset(b, u);
    }
    assert(face_counts(a) =~= face_counts(b));
    assert(suit_counts(a) =~= suit_counts(b));
}

/// Sorts cards by face, strongest first, keeping the order of cards of one face.
fn sort_by_face(cards: &[Card]) -> (r: Vec<Card>)
    ensures
        r@ == by_face_desc(cards@),
{
    let ghost s = cards@;
    let mut out: Vec<Card> = Vec::new();
    let mut v: u8 = 13;
    while v > 0
        invariant
            v <= 13,
            s == cards@,
            out@ == desc_from(s, v as int),
        decreases v,
    {
        v -= 1;
        let mut j: usize = 0;
        assert(out@ =~= desc_from(s, v + 1) + face_block(s.take(0), v as int));
        while j < cards.len()
            invariant
                j <= cards@.len(),
                v < 13,
                s == cards@,
                out@ == desc_from(s, v + 1) + face_block(s.take(j as int), v as int),
            decreases cards.len() - j,
        {
            proof {
                lemma_face_block_take(s, j as int, v as int);
            }
            if cards[j].face.strength() == v {
                out.push(cards[j]);
            }
            j += 1;
        }
        assert(s.take(cards@.len() as int) =~= s);
    }
    out
}

/// The five leading pairs of the sorted face pairs `fp` (the wheel's Ace
/// moved down), with faces for positions, and whether they make a straight.
fn lead_faces(fp: &Vec<(u8, u8)>) -> (r: ([(u8, Face); 5], bool))
    requires
        fp@.len() == 13,
        forall|i: int| 0 <= i < 13 ==> (#[trigger] fp@[i]).1 < 13,
    ensures
        forall|i: int|
            0 <= i < 5 ==> (#[trigger] r.0@[i].0 as int, r.0@[i].1.value()) == wheel_rotated(
                crate::rank::pairs_view(fp@),
            )[i],
        r.1 == pairs_straight(crate::rank::pairs_view(fp@)),
{
    let ghost p = crate::rank::pairs_view(fp@);
    assert(forall|i: int| 0 <= i < 13 ==> #[trigger] p[i] == (fp@[i].0 as int, fp@[i].1 as int));
    let single = fp[0].0 == 1 && fp[1].0 == 1 && fp[2].0 == 1 && fp[3].0 == 1 && fp[4].0 == 1;
    let top = fp[0].1;
    let low = fp[4].1;
    let straight = single && (top >= low && top - low == 4 || (top == 12 && fp[1].1 == 3 && low
        == 0));
    let start: usize = if top == 12 && straight && fp[1].1 != 11 {
        1
    } else {
        0
    };
    let ghost lead = wheel_rotated(p);
    assert(forall|i: int| 0 <= i < 5 ==> #[trigger] lead[i] == p[i + start]);
    let faces = [
        (fp[start].0, Face::of_strength(fp[start].1)),
        (fp[start + 1].0, Face::of_strength(fp[start + 1].1)),
        (fp[start + 2].0, Face::of_strength(fp[start + 2].1)),
        (fp[start + 3].0, Face::of_strength(fp[start + 3].1)),
        (fp[start + 4].0, Face::of_strength(fp[start + 4].1)),
    ];
    assert forall|i: int| 0 <= i < 5 implies (#[trigger] faces@[i].0 as int, faces@[i].1.value())
        == lead[i] by {
        assert(faces@[i] == (fp@[i + start].0, Face::at(fp@[i + start].1 as int)));
    }
    (faces, straight)
}

/// Five cards, kept sorted by face, strongest first.
#[derive(Clone, Copy, Debug, PartialEq, Eq, Hash)]
pub struct Hand {
    cards: [Card; 5],
}

impl View for Hand {
    type V = Seq<Card>;

    /// The five cards, in their stored order.
    closed spec fn view(&self) -> Seq<Card> {
        self.cards@
    }
}

impl Hand {
    /// Five distinct cards, sorted by face with the strongest first.
    pub open spec fn wf(&self) -> bool {
        &&& self@.len() == 5
        &&& self@.no_duplicates()
        &&& faces_descending(self@)
    }

    /// The rank of the hand, as `(category, key)`.
    pub open spec fn rank_spec(&self) -> (int, Seq<int>) {
        rank_of(self@)
    }

    /// A hand of the five distinct cards `cards`, sorted by face.
    pub(crate) fn sorted_from(cards: &[Card]) -> (r: Hand)
        requires
            cards@.len() == 5,
            cards@.no_duplicates(),
        ensures
            r@ == by_face_desc(cards@),
            r.wf(),
    {
        let sorted = sort_by_face(cards);
        proof {
            lemma_by_face_desc_multiset(cards@);
            cards@.lemma_multiset_has_no_duplicates();
            by_face_desc(cards@).lemma_multiset_has_no_duplicates_conv();
        }
        let h = Hand { cards: [sorted[0], sorted[1], sorted[2], sorted[3], sorted[4]] };
        assert(h.cards@ =~= sorted@);
        h
    }

    /// The hand of the five distinct cards `cards`, sorted by face, strongest
    /// first; cards of one face stay in the given order.
    pub fn new(cards: &[Card]) -> (r: Result<Hand, PokerError>)
        ensures
            cards@.len() != 5 ==> r == Err::<Hand, PokerError>(PokerError::InvalidHandSize),
            cards@.len() == 5 && !cards@.no_duplicates() ==> r == Err::<Hand, PokerError>(
                PokerError::DuplicateCard,
            ),
            cards@.len() == 5 && cards@.no_duplicates() ==> r.is_ok() && r->Ok_0@ == by_face_desc(
                cards@,
            ),
            r.is_ok() ==> r->Ok_0.wf(),
    {
        if cards.len() != 5 {
            return Err(PokerError::InvalidHandSize);
        }
        let mut i: usize = 0;
        while i < 5
            invariant
                i <= 5,
                cards@.len() == 5,
                forall|a: int, b: int| 0 <= a < i && a < b < 5 ==> cards@[a] != cards@[b],
            decreases 5 - i,
        {
            let mut j: usize = i + 1;
            while j < 5
                invariant
                    i < j <= 5,
                    cards@.len() == 5,
                    forall|a: int, b: int| 0 <= a < i && a < b < 5 ==> cards@[a] != cards@[b],
                    forall|b: int| i < b < j ==> cards@[i as int] != cards@[b],
                decreases 5 - j,
            {
                if cards[i] == cards[j] {
                    return Err(PokerError::DuplicateCard);
                }
                j += 1;
            }
            i += 1;
        }
        Ok(Hand::sorted_from(cards))
    }

    pub fn cards(&self) -> (r: &[Card; 5])
        ensures
            r@ == self@,
    {
        &self.cards
    }

    /// The strength of each card's face, in the hand's order.
    pub fn face_indexes(&self) -> (r: [u8; 5])
        ensures
            forall|i: int| 0 <= i < 5 ==> #[trigger] r@[i] as int == self@[i].face.value(),
    {
        [
            self.cards[0].face.strength(),
            self.cards[1].face.strength(),
            self.cards[2].face.strength(),
            self.cards[3].face.strength(),
            self.cards[4].face.strength(),
        ]
    }

    /// How much stronger each card's face is than the weakest (last) one.
    pub fn face_offsets(&self) -> (r: [u8; 5])
        requires
            self.wf(),
        ensures
            forall|i: int|
                0 <= i < 5 ==> #[trigger] r@[i] as int == self@[i].face.value()
                    - self@[4].face.value(),
    {
        let idx = self.face_indexes();
        [idx[0] - idx[4], idx[1] - idx[4], idx[2] - idx[4], idx[3] - idx[4], idx[4] - idx[4]]
    }

    /// Whether the faces form a run of five, counting Ace-Five-Four-Three-Two.
    pub fn is_straight(&self) -> (r: bool)
        requires
            self.wf(),
        ensures
            r == ({
                let o = Seq::new(
                    5,
                    |i: int| self@[i].face.value() - self@[4].face.value(),
                );
                o == seq![12int, 3, 2, 1, 0] || o == seq![4int, 3, 2, 1, 0]
            }),
    {
        let o = self.face_offsets();
        let ghost so = Seq::new(5, |i: int| self@[i].face.value() - self@[4].face.value());
        assert(so[0] == o[0] && so[1] == o[1] && so[2] == o[2] && so[3] == o[3] && so[4] == o[4]);
        let r = (o[0] == 12 || o[0] == 4) && o[1] == 3 && o[2] == 2 && o[3] == 1 && o[4] == 0;
        if r {
            if o[0] == 12 {
                assert(so =~= seq![12int, 3, 2, 1, 0]);
            } else {
                assert(so =~= seq![4int, 3, 2, 1, 0]);
            }
        }
        r
    }

    /// The counters of the hand: the five leading `(count, face)` pairs
    /// sorted by count, then face, descending, where for the wheel the Ace
    /// moves from the top to the end so that the Five leads; the four
    /// `(count, suit)` pairs sorted by count, then suit, descending; and
    /// whether the faces make a straight.
    pub fn counts(&self) -> (r: ([(u8, Face); 5], [(u8, Suit); 4], bool))
        ensures
            forall|i: int|
                0 <= i < 5 ==> (#[trigger] r.0@[i].0 as int, r.0@[i].1.value()) == lead_pairs(
                    self@,
                )[i],
            forall|i: int|
                0 <= i < 4 ==> (#[trigger] r.1@[i].0 as int, r.1@[i].1.index()) == sorted_pairs(
                    suit_counts(self@),
                )[i],
            r.2 == is_straight_run(self@),
    {
        let ghost s = self@;
        let mut fc: Vec<u8> = Vec::new();
        while fc.len() < 13
            invariant
                fc@.len() <= 13,
                forall|v: int| 0 <= v < fc@.len() ==> #[trigger] fc@[v] == 0,
            decreases 13 - fc.len(),
        {
            fc.push(0);
        }
        let mut sc: Vec<u8> = Vec::new();
        while sc.len() < 4
            invariant
                sc@.len() <= 4,
                forall|u: int| 0 <= u < sc@.len() ==> #[trigger] sc@[u] == 0,
            decreases 4 - sc.len(),
        {
            sc.push(0);
        }
        let mut i: usize = 0;
        while i < 5
            invariant
                i <= 5,
                s == self@,
                s.len() == 5,
                fc@.len() == 13,
                sc@.len() == 4,
                forall|v: int|
                    0 <= v < 13 ==> #[trigger] fc@[v] as int == face_count(s.take(i as int), v)
                        && fc@[v] <= i,
                forall|u: int|
                    0 <= u < 4 ==> #[trigger] sc@[u] as int == suit_count(s.take(i as int), u)
                        && sc@[u] <= i,
            decreases 5 - i,
        {
            let card = self.cards[i];
            assert(card == s[i as int]);
            assert(s.take(i + 1).drop_last() =~= s.take(i as int));
            let v = card.face.strength() as usize;
            let u = card.suit.to_index() as usize;
            let nf = fc[v] + 1;
            fc.set(v, nf);
            let ns = sc[u] + 1;
            sc.set(u, ns);
            i += 1;
        }
        assert(s.take(5) =~= s);
        let fp = sort_counts(&fc);
        let sp = sort_counts(&sc);
        assert(fc@.map_values(|x: u8| x as int) =~= face_counts(s));
        assert(sc@.map_values(|x: u8| x as int) =~= suit_counts(s));
        let ghost p = sorted_pairs(face_counts(s));
        let ghost q = sorted_pairs(suit_counts(s));
        let suits = [
            (sp[0].0, Suit::of_position(sp[0].1)),
            (sp[1].0, Suit::of_position(sp[1].1)),
            (sp[2].0, Suit::of_position(sp[2].1)),
            (sp[3].0, Suit::of_position(sp[3].1)),
        ];
        assert forall|i: int| 0 <= i < 4 implies (#[trigger] suits@[i].0 as int, suits@[i].1.index())
            == q[i] by {
            assert(crate::rank::pairs_view(sp@)[i] == q[i]);
        }
        let (faces, straight) = lead_faces(&fp);
        (faces, suits, straight)
    }

    /// The rank of the hand.
    pub fn rank(&self) -> (r: Rank)
        ensures
            r.model() == self.rank_spec(),
    {
        let (faces, suits, straight) = self.counts();
        let ghost p = lead_pairs(self@);
        let ghost lead = Seq::new(5, |i: int| (faces@[i].0 as int, faces@[i].1.value()));
        assert(lead[0] == p[0] && lead[1] == p[1] && lead[2] == p[2] && lead[3] == p[3] && lead[4] == p[4]);
        assert(suits@[0].0 as int == sorted_pairs(suit_counts(self@))[0].0);
        Rank::from_counts(faces, suits[0].0 == 5, straight)
    }

    /// Compares the ranks of two hands; `Equal` means a tie.
    pub fn compare(&self, other: &Hand) -> (r: std::cmp::Ordering)
        ensures
            r == rank_cmp(self.rank_spec(), other.rank_spec()),
    {
        self.rank().compare(&other.rank())
    }

    /// The tokens of the cards, in the hand's order.
    pub fn as_str_vec(&self) -> (r: Vec<String>)
        ensures
            r@.len() == 5,
            forall|i: int| 0 <= i < 5 ==> (#[trigger] r@[i])@ == self@[i].text(),
    {
        let mut out: Vec<String> = Vec::new();
        let mut i: usize = 0;
        while i < 5
            invariant
                i <= 5,
                out@.len() == i,
                forall|j: int| 0 <= j < i ==> (#[trigger] out@[j])@ == self@[j].text(),
            decreases 5 - i,
        {
            out.push(self.cards[i].to_string());
            i += 1;
        }
        out
    }

    /// The hand as text: the card tokens separated by single spaces.
    pub fn to_string(&self) -> (r: String)
        ensures
            r@ == hand_text(self@),
    {
        let mut out = String::new();
        self.cards[0].write_to(&mut out);
        out.append(" ");
        self.cards[1].write_to(&mut out);
        out.append(" ");
        self.cards[2].write_to(&mut out);
        out.append(" ");
        self.cards[3].write_to(&mut out);
        out.append(" ");
        self.cards[4].write_to(&mut out);
        proof {
            reveal_strlit(" ");
        }
        assert(out@ =~= hand_text(self@));
        out
    }

    /// Reads a hand written as five card tokens separated by single spaces.
    pub fn parse(t: &str) -> (r: Result<Hand, PokerError>)
        ensures
            match hand_parse_result(t@) {
                Ok(s) => r.is_ok() && r->Ok_0@ == s,
                Err(e) => r == Err::<Hand, PokerError>(e),
            },
    {
        if t.unicode_len() != 14 {
            return Err(PokerError::InvalidHandSize);
        }
        if t.get_char(2) != ' ' || t.get_char(5) != ' ' || t.get_char(8) != ' ' || t.get_char(11)
            != ' ' {
            return Err(PokerError::InvalidEncoding(EncodingKind::Card));
        }
        let c0 = match Card::parse(t.substring_char(0, 2)) {
            Ok(c) => c,
            Err(e) => return Err(e),
        };
        let c1 = match Card::parse(t.substring_char(3, 5)) {
            Ok(c) => c,
            Err(e) => return Err(e),
        };
        let c2 = match Card::parse(t.substring_char(6, 8)) {
            Ok(c) => c,
            Err(e) => return Err(e),
        };
        let c3 = match Card::parse(t.substring_char(9, 11)) {
            Ok(c) => c,
            Err(e) => return Err(e),
        };
        let c4 = match Card::parse(t.substring_char(12, 14)) {
            Ok(c) => c,
            Err(e) => return Err(e),
        };
        let cards = [c0, c1, c2, c3, c4];
        assert(cards@ =~= seq![c0, c1, c2, c3, c4]);
        Hand::new(&cards)
    }
}

impl std::str::FromStr for Hand {
    type Err = PokerError;

    fn from_str(s: &str) -> Result<Hand, PokerError> {
        Hand::parse(s)
    }
}

} // verus!
