use crate::face::Face;
use vstd::prelude::*;

verus! {

/// The pairs `(k, i)` for each position `i < n` of `c` with `c[i] == k`, by
/// position from the highest down.
pub open spec fn with_count(c: Seq<int>, k: int, n: int) -> Seq<(int, int)>
    decreases n,
{
    if n <= 0 {
        seq![]
    } else if c[n - 1] == k {
        seq![(k, n - 1)] + with_count(c, k, n - 1)
    } else {
        with_count(c, k, n - 1)
    }
}

/// The pairs `(c[i], i)` for `i < n` with `k <= c[i] <= 5`, ordered by count
/// from the highest down, then by position from the highest down.
pub open spec fn pairs_from(c: Seq<int>, k: int, n: int) -> Seq<(int, int)>
    decreases 6 - k,
{
    if k > 5 {
        seq![]
    } else {
        pairs_from(c, k + 1, n) + with_count(c, k, n)
    }
}

/// The counters `c` as `(count, position)` pairs, sorted by count and then by
/// position, both descending.
pub open spec fn sorted_pairs(c: Seq<int>) -> Seq<(int, int)> {
    pairs_from(c, 0, c.len() as int)
}

/// Whether the five leading face pairs are five single faces in a run, the
/// run Ace-Five-Four-Three-Two included.
pub open spec fn pairs_straight(p: Seq<(int, int)>) -> bool {
    &&& p[0].0 == 1
    &&& p[1].0 == 1
    &&& p[2].0 == 1
    &&& p[3].0 == 1
    &&& p[4].0 == 1
    &&& (p[0].1 - p[4].1 == 4 || (p[0].1 == 12 && p[1].1 == 3 && p[4].1 == 0))
}

/// The sorted face pairs as classification reads them: for the wheel (a
/// straight led by an Ace whose second face is not a King) the Ace moves from
/// the top to the end, so that the Five leads; otherwise unchanged.
pub open spec fn wheel_rotated(p: Seq<(int, int)>) -> Seq<(int, int)> {
    if p[0].1 == 12 && pairs_straight(p) && p[1].1 != 11 {
        p.subrange(1, p.len() as int).push(p[0])
    } else {
        p
    }
}

/// The rank of a hand as `(category, key)`, from its leading face pairs `q`
/// (sorted by count, then face, descending, with the wheel's Ace moved down),
/// whether it is a flush, and whether it is a straight. Categories run from
/// `0` (high card) to `9` (royal flush); the key lists the strengths of the
/// faces that break ties, in the order of the patterns below, the first
/// matching one winning.
pub open spec fn classify(q: Seq<(int, int)>, flush: bool, straight: bool) -> (int, Seq<int>) {
    let single = q[0].0 == 1 && q[1].0 == 1 && q[2].0 == 1 && q[3].0 == 1 && q[4].0 == 1;
    if flush && single && q[0].1 == 12 && q[1].1 == 11 && q[2].1 == 10 && q[3].1 == 9 && q[4].1
        == 8 {
        (9, seq![])
    } else if q[0].0 == 1 && flush && straight {
        (8, seq![q[0].1])
    } else if q[0].0 == 4 && q[1].0 == 1 {
        (7, seq![q[0].1, q[1].1])
    } else if q[0].0 == 3 && q[1].0 == 2 {
        (6, seq![q[0].1, q[1].1])
    } else if flush && single {
        (5, seq![q[0].1, q[1].1, q[2].1, q[3].1, q[4].1])
    } else if q[0].0 == 1 && straight {
        (4, seq![q[0].1])
    } else if q[0].0 == 3 && q[1].0 == 1 && q[2].0 == 1 {
        (3, seq![q[0].1, q[1].1, q[2].1])
    } else if q[0].0 == 2 && q[1].0 == 2 && q[2].0 == 1 {
        (2, seq![q[0].1, q[1].1, q[2].1])
    } else if q[0].0 == 2 && q[1].0 == 1 && q[2].0 == 1 && q[3].0 == 1 {
        (1, seq![q[0].1, q[1].1, q[2].1, q[3].1])
    } else {
        (0, seq![q[0].1, q[1].1, q[2].1, q[3].1, q[4].1])
    }
}

/// Lexicographic comparison of two keys.
pub open spec fn lex_cmp(a: Seq<int>, b: Seq<int>) -> std::cmp::Ordering
    decreases a.len(),
{
    if a.len() == 0 || b.len() == 0 {
        if a.len() < b.len() {
            std::cmp::Ordering::Less
        } else if a.len() > b.len() {
            std::cmp::Ordering::Greater
        } else {
            std::cmp::Ordering::Equal
        }
    } else if a[0] < b[0] {
        std::cmp::Ordering::Less
    } else if a[0] > b[0] {
        std::cmp::Ordering::Greater
    } else {
        lex_cmp(a.drop_first(), b.drop_first())
    }
}

/// The order of ranks: by category, then by key.
pub open spec fn rank_cmp(a: (int, Seq<int>), b: (int, Seq<int>)) -> std::cmp::Ordering {
    if a.0 < b.0 {
        std::cmp::Ordering::Less
    } else if a.0 > b.0 {
        std::cmp::Ordering::Greater
    } else {
        lex_cmp(a.1, b.1)
    }
}

/// A vector of `(count, position)` pairs as integers.
pub open spec fn pairs_view(v: Seq<(u8, u8)>) -> Seq<(int, int)> {
    v.map_values(|q: (u8, u8)| (q.0 as int, q.1 as int))
}

proof fn lemma_pairs_empty(c: Seq<int>, k: int)
    ensures
        pairs_from(c, k, 0).len() == 0,
    decreases 6 - k,
{
    if k <= 5 {
        lemma_pairs_empty(c, k + 1);
    }
}

proof fn lemma_pairs_step(c: Seq<int>, k: int, n: int)
    requires
        1 <= n <= c.len(),
    ensures
        pairs_from(c, k, n).len() == pairs_from(c, k, n - 1).len() + if k <= c[n - 1] <= 5 {
            1int
        } else {
            0int
        },
    decreases 6 - k,
{
    if k <= 5 {
        lemma_pairs_step(c, k + 1, n);
    }
}

proof fn lemma_pairs_len(c: Seq<int>, n: int)
    requires
        0 <= n <= c.len(),
        forall|i: int| 0 <= i < c.len() ==> 0 <= #[trigger] c[i] <= 5,
    ensures
        pairs_from(c, 0, n).len() == n,
    decreases n,
{
    if n == 0 {
        lemma_pairs_empty(c, 0);
    } else {
        lemma_pairs_len(c, n - 1);
        lemma_pairs_step(c, 0, n);
    }
}

proof fn lemma_with_count_elems(c: Seq<int>, k: int, n: int)
    ensures
        forall|i: int|
            0 <= i < with_count(c, k, n).len() ==> {
                let q = #[trigger] with_count(c, k, n)[i];
                q.0 == k && 0 <= q.1 < n
            },
    decreases n,
{
    if n > 0 {
        lemma_with_count_elems(c, k, n - 1);
        let w = with_count(c, k, n - 1);
        if c[n - 1] == k {
            assert forall|i: int| 0 <= i < with_count(c, k, n).len() implies {
                let q = #[trigger] with_count(c, k, n)[i];
                q.0 == k && 0 <= q.1 < n
            } by {
                if i > 0 {
                    assert(with_count(c, k, n)[i] == w[i - 1]);
                }
            }
        }
    }
}

proof fn lemma_pairs_elems(c: Seq<int>, k: int, n: int)
    ensures
        forall|i: int|
            0 <= i < pairs_from(c, k, n).len() ==> {
                let q = #[trigger] pairs_from(c, k, n)[i];
                k <= q.0 <= 5 && 0 <= q.1 < n
            },
    decreases 6 - k,
{
    if k <= 5 {
        lemma_pairs_elems(c, k + 1, n);
        lemma_with_count_elems(c, k, n);
        let a = pairs_from(c, k + 1, n);
        let b = with_count(c, k, n);
        assert forall|i: int| 0 <= i < pairs_from(c, k, n).len() implies {
            let q = #[trigger] pairs_from(c, k, n)[i];
            k <= q.0 <= 5 && 0 <= q.1 < n
        } by {
            if i < a.len() {
                assert(pairs_from(c, k, n)[i] == a[i]);
            } else {
                assert(pairs_from(c, k, n)[i] == b[i - a.len()]);
            }
        }
    }
}

/// Sorts the counters `c` into `(count, position)` pairs, by count and then
/// by position, both descending.
pub fn sort_counts(c: &Vec<u8>) -> (r: Vec<(u8, u8)>)
    requires
        c@.len() <= 13,
        forall|i: int| 0 <= i < c@.len() ==> #[trigger] c@[i] <= 5,
    ensures
        pairs_view(r@) == sorted_pairs(c@.map_values(|x: u8| x as int)),
        r@.len() == c@.len(),
        forall|i: int|
            0 <= i < r@.len() ==> (#[trigger] r@[i]).0 <= 5 && r@[i].1 < c@.len(),
{
    let ghost ci = c@.map_values(|x: u8| x as int);
    let mut out: Vec<(u8, u8)> = Vec::new();
    let mut k: u8 = 6;
    while k > 0
        invariant
            k <= 6,
            c@.len() <= 13,
            ci == c@.map_values(|x: u8| x as int),
            pairs_view(out@) == pairs_from(ci, k as int, ci.len() as int),
        decreases k,
    {
        k -= 1;
        let mut n: usize = c.len();
        assert(pairs_view(out@) + with_count(ci, k as int, n as int) == pairs_from(
            ci,
            k + 1,
            ci.len() as int,
        ) + with_count(ci, k as int, ci.len() as int));
        while n > 0
            invariant
                n <= c@.len(),
                c@.len() <= 13,
                ci == c@.map_values(|x: u8| x as int),
                pairs_view(out@) + with_count(ci, k as int, n as int) == pairs_from(
                    ci,
                    k + 1,
                    ci.len() as int,
                ) + with_count(ci, k as int, ci.len() as int),
            decreases n,
        {
            n -= 1;
            let ghost before = out@;
            if c[n] == k {
                out.push((k, n as u8));
                assert(pairs_view(out@) =~= pairs_view(before).push((k as int, n as int)));
                assert(pairs_view(before) + with_count(ci, k as int, n + 1) =~= pairs_view(out@)
                    + with_count(ci, k as int, n as int));
            }
        }
        assert(pairs_view(out@) =~= pairs_view(out@) + with_count(ci, k as int, 0));
    }
    proof {
        lemma_pairs_len(ci, ci.len() as int);
        lemma_pairs_elems(ci, 0, ci.len() as int);
        assert forall|i: int| 0 <= i < out@.len() implies (#[trigger] out@[i]).0 <= 5 && out@[i].1
            < c@.len() by {
            assert(pairs_view(out@)[i] == (out@[i].0 as int, out@[i].1 as int));
        }
    }
    out
}

/// The classification of a five-card hand, with the faces that break ties
/// within a category.
#[derive(Clone, Copy, Debug, PartialEq, Eq, PartialOrd, Ord, Hash)]
pub enum Rank {
    HighCard([Face; 5]),
    Pair(Face, [Face; 3]),
    TwoPair(Face, Face, [Face; 1]),
    ThreeOfAKind(Face, [Face; 2]),
    Straight(Face),
    Flush([Face; 5]),
    FullHouse(Face, Face),
    FourOfAKind(Face, [Face; 1]),
    StraightFlush(Face),
    RoyalFlush,
}

impl Rank {
    /// The rank as `(category, key)`, the form in which ranks are compared.
    pub open spec fn model(self) -> (int, Seq<int>) {
        (self.category(), self.key())
    }

    /// The category, `0` for a high card up to `9` for a royal flush.
    pub open spec fn category(self) -> int {
        match self {
            Rank::HighCard(_) => 0,
            Rank::Pair(_, _) => 1,
            Rank::TwoPair(_, _, _) => 2,
            Rank::ThreeOfAKind(_, _) => 3,
            Rank::Straight(_) => 4,
            Rank::Flush(_) => 5,
            Rank::FullHouse(_, _) => 6,
            Rank::FourOfAKind(_, _) => 7,
            Rank::StraightFlush(_) => 8,
            Rank::RoyalFlush => 9,
        }
    }

    /// How `compare` orders `self` against `other`.
    pub open spec fn compare_spec(self, other: Rank) -> std::cmp::Ordering {
        rank_cmp(self.model(), other.model())
    }

    /// The strengths of the faces that the rank carries, in order.
    pub open spec fn key(self) -> Seq<int> {
        match self {
            Rank::HighCard(a) => seq![
                a@[0].value(),
                a@[1].value(),
                a@[2].value(),
                a@[3].value(),
                a@[4].value(),
            ],
            Rank::Pair(a, k) => seq![a.value(), k@[0].value(), k@[1].value(), k@[2].value()],
            Rank::TwoPair(a, b, k) => seq![a.value(), b.value(), k@[0].value()],
            Rank::ThreeOfAKind(a, k) => seq![a.value(), k@[0].value(), k@[1].value()],
            Rank::Straight(a) => seq![a.value()],
            Rank::Flush(a) => seq![
                a@[0].value(),
                a@[1].value(),
                a@[2].value(),
                a@[3].value(),
                a@[4].value(),
            ],
            Rank::FullHouse(a, b) => seq![a.value(), b.value()],
            Rank::FourOfAKind(a, k) => seq![a.value(), k@[0].value()],
            Rank::StraightFlush(a) => seq![a.value()],
            Rank::RoyalFlush => seq![],
        }
    }

    /// The category as a small integer.
    pub fn category_code(&self) -> (r: u8)
        ensures
            r as int == self.category(),
    {
        match self {
            Rank::HighCard(_) => 0,
            Rank::Pair(_, _) => 1,
            Rank::TwoPair(_, _, _) => 2,
            Rank::ThreeOfAKind(_, _) => 3,
            Rank::Straight(_) => 4,
            Rank::Flush(_) => 5,
            Rank::FullHouse(_, _) => 6,
            Rank::FourOfAKind(_, _) => 7,
            Rank::StraightFlush(_) => 8,
            Rank::RoyalFlush => 9,
        }
    }

    /// The strengths of the faces that the rank carries, in order.
    pub fn key_strengths(&self) -> (r: Vec<u8>)
        ensures
            r@.len() == self.key().len(),
            forall|i: int| 0 <= i < r@.len() ==> #[trigger] r@[i] as int == self.key()[i],
    {
        match self {
            Rank::HighCard(a) => vec![
                a[0].strength(),
                a[1].strength(),
                a[2].strength(),
                a[3].strength(),
                a[4].strength(),
            ],
            Rank::Pair(a, k) => vec![a.strength(), k[0].strength(), k[1].strength(), k[2].strength()],
            Rank::TwoPair(a, b, k) => vec![a.strength(), b.strength(), k[0].strength()],
            Rank::ThreeOfAKind(a, k) => vec![a.strength(), k[0].strength(), k[1].strength()],
            Rank::Straight(a) => vec![a.strength()],
            Rank::Flush(a) => vec![
                a[0].strength(),
                a[1].strength(),
                a[2].strength(),
                a[3].strength(),
                a[4].strength(),
            ],
            Rank::FullHouse(a, b) => vec![a.strength(), b.strength()],
            Rank::FourOfAKind(a, k) => vec![a.strength(), k[0].strength()],
            Rank::StraightFlush(a) => vec![a.strength()],
            Rank::RoyalFlush => vec![],
        }
    }

    /// Compares two ranks: by category first, then by the faces they carry.
    /// `Equal` means a tie.
    pub fn compare(&self, other: &Rank) -> (r: std::cmp::Ordering)
        ensures
            r == self.compare_spec(*other),
    {
        let ca = self.category_code();
        let cb = other.category_code();
        if ca < cb {
            return std::cmp::Ordering::Less;
        }
        if ca > cb {
            return std::cmp::Ordering::Greater;
        }
        let ka = self.key_strengths();
        let kb = other.key_strengths();
        let ghost sa = self.key();
        let ghost sb = other.key();
        let mut i: usize = 0;
        assert(sa.skip(0) =~= sa);
        assert(sb.skip(0) =~= sb);
        while i < ka.len() && i < kb.len()
            invariant
                i <= ka@.len(),
                i <= kb@.len(),
                ka@.len() == sa.len(),
                kb@.len() == sb.len(),
                forall|j: int| 0 <= j < ka@.len() ==> #[trigger] ka@[j] as int == sa[j],
                forall|j: int| 0 <= j < kb@.len() ==> #[trigger] kb@[j] as int == sb[j],
                lex_cmp(sa, sb) == lex_cmp(sa.skip(i as int), sb.skip(i as int)),
                self.category() == other.category(),
                sa == self.key(),
                sb == other.key(),
            decreases ka.len() - i,
        {
            assert(sa.skip(i as int).drop_first() =~= sa.skip(i + 1));
            assert(sb.skip(i as int).drop_first() =~= sb.skip(i + 1));
            assert(sa.skip(i as int)[0] == sa[i as int]);
            assert(sb.skip(i as int)[0] == sb[i as int]);
            assert(ka@[i as int] as int == sa[i as int]);
            assert(kb@[i as int] as int == sb[i as int]);
            if ka[i] < kb[i] {
                assert(lex_cmp(sa.skip(i as int), sb.skip(i as int)) == std::cmp::Ordering::Less);
                return std::cmp::Ordering::Less;
            }
            if ka[i] > kb[i] {
                return std::cmp::Ordering::Greater;
            }
            i += 1;
        }
        if ka.len() < kb.len() {
            std::cmp::Ordering::Less
        } else if ka.len() > kb.len() {
            std::cmp::Ordering::Greater
        } else {
            std::cmp::Ordering::Equal
        }
    }

    /// Derives the rank from the five leading `(count, face)` pairs of a hand
    /// (sorted by count, then face, descending, with the wheel's Ace moved
    /// down), whether it is a flush, and whether it is a straight.
    pub fn from_counts(faces: [(u8, Face); 5], flush: bool, straight: bool) -> (r: Rank)
        ensures
            r.model() == classify(
                Seq::new(5, |i: int| (faces@[i].0 as int, faces@[i].1.value())),
                flush,
                straight,
            ),
    {
        let ghost p = Seq::new(5, |i: int| (faces@[i].0 as int, faces@[i].1.value()));
        let (c0, a) = faces[0];
        let (c1, b) = faces[1];
        let (c2, c) = faces[2];
        let (c3, d) = faces[3];
        let (c4, e) = faces[4];
        assert(p[0] == (c0 as int, a.value()) && p[1] == (c1 as int, b.value()) && p[2] == (
        c2 as int, c.value()) && p[3] == (c3 as int, d.value()) && p[4] == (c4 as int, e.value()));
        let single = c0 == 1 && c1 == 1 && c2 == 1 && c3 == 1 && c4 == 1;
        if flush && single && a == Face::Ace && b == Face::King && c == Face::Queen && d
            == Face::Jack && e == Face::Ten {
            Rank::RoyalFlush
        } else if c0 == 1 && flush && straight {
            Rank::StraightFlush(a)
        } else if c0 == 4 && c1 == 1 {
            Rank::FourOfAKind(a, [b])
        } else if c0 == 3 && c1 == 2 {
            Rank::FullHouse(a, b)
        } else if flush && single {
            Rank::Flush([a, b, c, d, e])
        } else if c0 == 1 && straight {
            Rank::Straight(a)
        } else if c0 == 3 && c1 == 1 && c2 == 1 {
            Rank::ThreeOfAKind(a, [b, c])
        } else if c0 == 2 && c1 == 2 && c2 == 1 {
            Rank::TwoPair(a, b, [c])
        } else if c0 == 2 && c1 == 1 && c2 == 1 && c3 == 1 {
            Rank::Pair(a, [b, c, d])
        } else {
            Rank::HighCard([a, b, c, d, e])
        }
    }
}

/// "At least" between keys is transitive.
pub proof fn lemma_lex_ge_trans(a: Seq<int>, b: Seq<int>, c: Seq<int>)
    requires
        lex_cmp(a, b) != std::cmp::Ordering::Less,
        lex_cmp(b, c) != std::cmp::Ordering::Less,
    ensures
        lex_cmp(a, c) != std::cmp::Ordering::Less,
    decreases a.len(),
{
    if a.len() > 0 && b.len() > 0 && c.len() > 0 && a[0] == b[0] && b[0] == c[0] {
        lemma_lex_ge_trans(a.drop_first(), b.drop_first(), c.drop_first());
    }
}

/// Every key is at least itself.
pub proof fn lemma_lex_ge_refl(a: Seq<int>)
    ensures
        lex_cmp(a, a) == std::cmp::Ordering::Equal,
    decreases a.len(),
{
    if a.len() > 0 {
        lemma_lex_ge_refl(a.drop_first());
    }
}

/// Swapping the keys turns "less" into "greater".
pub proof fn lemma_lex_flip(a: Seq<int>, b: Seq<int>)
    requires
        lex_cmp(a, b) == std::cmp::Ordering::Less,
    ensures
        lex_cmp(b, a) == std::cmp::Ordering::Greater,
    decreases a.len(),
{
    if a.len() > 0 && b.len() > 0 && a[0] == b[0] {
        lemma_lex_flip(a.drop_first(), b.drop_first());
    }
}

/// Swapping two ranks turns "less" into "greater".
pub proof fn lemma_rank_cmp_flip(a: (int, Seq<int>), b: (int, Seq<int>))
    requires
        rank_cmp(a, b) == std::cmp::Ordering::Less,
    ensures
        rank_cmp(b, a) == std::cmp::Ordering::Greater,
{
    if a.0 == b.0 {
        lemma_lex_flip(a.1, b.1);
    }
}

/// "At least" between ranks is transitive.
pub proof fn lemma_rank_ge_trans(a: (int, Seq<int>), b: (int, Seq<int>), c: (int, Seq<int>))
    requires
        rank_cmp(a, b) != std::cmp::Ordering::Less,
        rank_cmp(b, c) != std::cmp::Ordering::Less,
    ensures
        rank_cmp(a, c) != std::cmp::Ordering::Less,
{
    if a.0 == b.0 && b.0 == c.0 {
        lemma_lex_ge_trans(a.1, b.1, c.1);
    }
}

/// Every rank of a higher category beats every rank of a lower one.
pub proof fn lemma_category_order(a: Rank, b: Rank)
    requires
        a.category() > b.category(),
    ensures
        a.compare_spec(b) == std::cmp::Ordering::Greater,
        b.compare_spec(a) == std::cmp::Ordering::Less,
{
}

} // verus!
