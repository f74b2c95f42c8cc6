use crate::card::Card;
use crate::hand::{by_face_desc, rank_of, Hand};
use crate::rank::{lemma_lex_ge_refl, lemma_rank_cmp_flip, lemma_rank_ge_trans, rank_cmp};
use vstd::prelude::*;
use vstd::string::StringExecFns;

verus! {

/// The `k`-card subsets of `s`, as subsequences: those with the first card
/// before those without it, each group in the same order recursively.
pub open spec fn card_combos(s: Seq<Card>, k: int) -> Seq<Seq<Card>>
    decreases s.len(),
{
    if k <= 0 {
        seq![seq![]]
    } else if k > s.len() {
        seq![]
    } else {
        card_combos(s.drop_first(), k - 1).map_values(|c: Seq<Card>| seq![s[0]] + c)
            + card_combos(s.drop_first(), k)
    }
}

/// Every subset has `k` cards, and there is at least one when `k` cards can
/// be chosen.
pub proof fn lemma_card_combos(s: Seq<Card>, k: int)
    requires
        0 <= k,
    ensures
        forall|i: int|
            0 <= i < card_combos(s, k).len() ==> (#[trigger] card_combos(s, k)[i]).len() == k,
        k <= s.len() ==> card_combos(s, k).len() > 0,
    decreases s.len(),
{
    if k > 0 && k <= s.len() {
        lemma_card_combos(s.drop_first(), k - 1);
        lemma_card_combos(s.drop_first(), k);
        let a = card_combos(s.drop_first(), k - 1).map_values(|c: Seq<Card>| seq![s[0]] + c);
        let b = card_combos(s.drop_first(), k);
        assert forall|i: int|
            0 <= i < card_combos(s, k).len() implies (#[trigger] card_combos(s, k)[i]).len()
            == k by {
            if i < a.len() {
                assert(card_combos(s, k)[i] == a[i]);
            } else {
                assert(card_combos(s, k)[i] == b[i - a.len()]);
            }
        }
    }
}

/// Every subset holds only cards of `s`, and none twice when `s` holds none
/// twice.
pub proof fn lemma_card_combos_distinct(s: Seq<Card>, k: int)
    requires
        s.no_duplicates(),
    ensures
        forall|i: int, x: Card|
            0 <= i < card_combos(s, k).len() && #[trigger] card_combos(s, k)[i].contains(x)
                ==> s.contains(x),
        forall|i: int|
            0 <= i < card_combos(s, k).len() ==> (#[trigger] card_combos(s, k)[i]).no_duplicates(),
    decreases s.len(),
{
    if k > 0 && k <= s.len() {
        let t = s.drop_first();
        lemma_card_combos_distinct(t, k - 1);
        lemma_card_combos_distinct(t, k);
        let a = card_combos(t, k - 1).map_values(|c: Seq<Card>| seq![s[0]] + c);
        let b = card_combos(t, k);
        assert forall|i: int| 0 <= i < card_combos(s, k).len() implies {
            &&& (forall|x: Card| (#[trigger] card_combos(s, k)[i]).contains(x) ==> s.contains(x))
            &&& card_combos(s, k)[i].no_duplicates()
        } by {
            if i < a.len() {
                let c = card_combos(t, k - 1)[i];
                assert(card_combos(s, k)[i] == seq![s[0]] + c);
                assert forall|x: Card| c.contains(x) implies s.contains(x) && x != s[0] by {
                    let n = choose|n: int| 0 <= n < c.len() && c[n] == x;
                    assert(c.contains(c[n]));
                    assert(t.contains(x));
                    let m = choose|m: int| 0 <= m < t.len() && t[m] == x;
                    assert(s[m + 1] == x);
                }
                assert forall|x: Card| (seq![s[0]] + c).contains(x) implies s.contains(x) by {
                    let n = choose|n: int| 0 <= n < c.len() + 1 && (seq![s[0]] + c)[n] == x;
                    if n > 0 {
                        assert(c[n - 1] == x);
                        assert(c.contains(c[n - 1]));
                    } else {
                        assert(s[0] == x);
                    }
                }
                assert forall|m: int| 0 <= m < c.len() implies seq![s[0]][0] != c[m] by {
                    assert(c.contains(c[m]));
                }
                vstd::seq_lib::lemma_no_dup_in_concat(seq![s[0]], c);
            } else {
                assert(card_combos(s, k)[i] == b[i - a.len()]);
                let c = b[i - a.len()];
                assert forall|x: Card| c.contains(x) implies s.contains(x) by {
                    assert(t.contains(x));
                    let m = choose|m: int| 0 <= m < t.len() && t[m] == x;
                    assert(s[m + 1] == x);
                }
            }
        }
    } else if k <= 0 {
        assert(card_combos(s, k)[0] =~= Seq::<Card>::empty());
    }
}

/// The `size`-card subsets of `arr`, in the order of `card_combos`.
pub fn combinations(arr: &[Card], size: usize) -> (r: Vec<Vec<Card>>)
    ensures
        r@.len() == card_combos(arr@, size as int).len(),
        forall|i: int|
            0 <= i < r@.len() ==> (#[trigger] r@[i])@ == card_combos(arr@, size as int)[i],
    decreases arr@.len(),
{
    if size == 0 {
        let mut r: Vec<Vec<Card>> = Vec::new();
        r.push(Vec::new());
        return r;
    }
    if size > arr.len() {
        return Vec::new();
    }
    let rest = vstd::slice::slice_subrange(arr, 1, arr.len());
    assert(rest@ =~= arr@.drop_first());
    let first = arr[0];
    let ghost a = card_combos(arr@.drop_first(), size - 1).map_values(
        |c: Seq<Card>| seq![arr@[0]] + c,
    );
    let ghost b = card_combos(arr@.drop_first(), size as int);
    let with_first = combinations(rest, size - 1);
    let mut result: Vec<Vec<Card>> = Vec::new();
    let mut i: usize = 0;
    while i < with_first.len()
        invariant
            i <= with_first@.len(),
            with_first@.len() == a.len(),
            first == arr@[0],
            a == card_combos(arr@.drop_first(), size - 1).map_values(
                |c: Seq<Card>| seq![arr@[0]] + c,
            ),
            forall|j: int|
                0 <= j < with_first@.len() ==> (#[trigger] with_first@[j])@ == card_combos(
                    arr@.drop_first(),
                    size - 1,
                )[j],
            result@.len() == i,
            forall|j: int| 0 <= j < i ==> (#[trigger] result@[j])@ == a[j],
        decreases with_first.len() - i,
    {
        let combo = &with_first[i];
        let mut one: Vec<Card> = Vec::new();
        one.push(first);
        let mut j: usize = 0;
        while j < combo.len()
            invariant
                j <= combo@.len(),
                one@ == seq![first] + combo@.take(j as int),
            decreases combo.len() - j,
        {
            assert(combo@.take(j + 1) =~= combo@.take(j as int).push(combo@[j as int]));
            assert(seq![first] + combo@.take(j + 1) =~= (seq![first] + combo@.take(j as int)).push(
                combo@[j as int],
            ));
            one.push(combo[j]);
            j += 1;
        }
        assert(combo@.take(combo@.len() as int) =~= combo@);
        result.push(one);
        i += 1;
    }
    let without = combinations(rest, size);
    let mut i: usize = 0;
    while i < without.len()
        invariant
            i <= without@.len(),
            without@.len() == b.len(),
            forall|j: int| 0 <= j < without@.len() ==> (#[trigger] without@[j])@ == b[j],
            result@.len() == a.len() + i,
            forall|j: int| 0 <= j < a.len() ==> (#[trigger] result@[j])@ == a[j],
            forall|j: int| a.len() <= j < a.len() + i ==> (#[trigger] result@[j])@ == b[j - a.len()],
        decreases without.len() - i,
    {
        let combo = without[i].clone();
        assert(combo@ =~= without@[i as int]@);
        result.push(combo);
        i += 1;
    }
    assert forall|j: int| 0 <= j < result@.len() implies (#[trigger] result@[j])@ == card_combos(
        arr@,
        size as int,
    )[j] by {
        if j < a.len() {
        } else {
        }
    }
    result
}

/// The five-card hands that can be made from the cards `s`, each sorted by
/// face, in the order of `card_combos`.
pub open spec fn hands_of(s: Seq<Card>) -> Seq<Seq<Card>> {
    card_combos(s, 5).map_values(|c: Seq<Card>| by_face_desc(c))
}

/// Whether `i` indexes a five-card hand out of the cards `s` whose rank no
/// other such hand beats.
pub open spec fn is_best(s: Seq<Card>, i: int) -> bool {
    &&& 0 <= i < hands_of(s).len()
    &&& forall|j: int|
        0 <= j < hands_of(s).len() ==> rank_cmp(
            rank_of(hands_of(s)[i]),
            rank_of(#[trigger] hands_of(s)[j]),
        ) != std::cmp::Ordering::Less
}

/// Whether `i` indexes the last hand, in the order of `hands_of(s)`, whose
/// rank no other hand beats: every later hand ranks strictly lower.
pub open spec fn is_last_best(s: Seq<Card>, i: int) -> bool {
    &&& is_best(s, i)
    &&& forall|j: int|
        i < j < hands_of(s).len() ==> rank_cmp(rank_of(hands_of(s)[i]), rank_of(#[trigger] hands_of(s)[j]))
            == std::cmp::Ordering::Greater
}

/// The text of a deal: the two hole cards, `" + "`, then the five community
/// cards, tokens separated by single spaces.
pub open spec fn deal_text(s: Seq<Card>) -> Seq<char> {
    s[0].text() + seq![' '] + s[1].text() + seq![' ', '+', ' '] + s[2].text() + seq![' ']
        + s[3].text() + seq![' '] + s[4].text() + seq![' '] + s[5].text() + seq![' '] + s[6].text()
}

/// One player's view of a deal: two hole cards and the five community cards.
#[derive(Clone, Copy, Debug, PartialEq, Eq, Hash)]
pub struct Deal {
    hole: [Card; 2],
    community: [Card; 5],
}

impl View for Deal {
    type V = Seq<Card>;

    /// The seven cards: the hole cards, then the community cards.
    closed spec fn view(&self) -> Seq<Card> {
        self.hole@ + self.community@
    }
}

impl Deal {
    /// The seven cards are distinct.
    #[verifier::type_invariant]
    spec fn distinct(&self) -> bool {
        (self.hole@ + self.community@).no_duplicates()
    }

    /// The five-card hands that can be made from the seven cards, each
    /// sorted by face, in the order of `card_combos`.
    pub open spec fn hands(self) -> Seq<Seq<Card>> {
        hands_of(self@)
    }

    /// The deal of the hole cards `hole` and the community cards
    /// `community`, seven distinct cards.
    pub fn new(hole: [Card; 2], community: [Card; 5]) -> (r: Deal)
        requires
            (hole@ + community@).no_duplicates(),
        ensures
            r@ == hole@ + community@,
    {
        Deal { hole, community }
    }

    /// The seven cards: the hole cards, then the community cards.
    pub fn combine(&self) -> (r: [Card; 7])
        ensures
            r@ == self@,
    {
        let r = [
            self.hole[0],
            self.hole[1],
            self.community[0],
            self.community[1],
            self.community[2],
            self.community[3],
            self.community[4],
        ];
        assert(r@ =~= self@);
        r
    }

    /// Every five-card hand out of the seven cards, each subset once.
    pub fn combinations(&self) -> (r: Vec<Hand>)
        ensures
            r@.len() == self.hands().len(),
            forall|i: int| 0 <= i < r@.len() ==> (#[trigger] r@[i])@ == self.hands()[i],
            forall|i: int| 0 <= i < r@.len() ==> (#[trigger] r@[i]).wf(),
    {
        let all = self.combine();
        let combos = combinations(&all, 5);
        proof {
            use_type_invariant(self);
            lemma_card_combos(self@, 5);
            lemma_card_combos_distinct(self@, 5);
        }
        let mut hands: Vec<Hand> = Vec::new();
        let mut i: usize = 0;
        while i < combos.len()
            invariant
                i <= combos@.len(),
                combos@.len() == card_combos(self@, 5).len(),
                forall|j: int|
                    0 <= j < combos@.len() ==> (#[trigger] combos@[j])@ == card_combos(self@, 5)[j],
                forall|j: int|
                    0 <= j < card_combos(self@, 5).len() ==> (#[trigger] card_combos(
                        self@,
                        5,
                    )[j]).len() == 5,
                forall|j: int|
                    0 <= j < card_combos(self@, 5).len() ==> (#[trigger] card_combos(
                        self@,
                        5,
                    )[j]).no_duplicates(),
                hands@.len() == i,
                forall|j: int| 0 <= j < i ==> (#[trigger] hands@[j])@ == self.hands()[j],
                forall|j: int| 0 <= j < i ==> (#[trigger] hands@[j]).wf(),
            decreases combos.len() - i,
        {
            assert(combos@[i as int]@ == card_combos(self@, 5)[i as int]);
            let h = Hand::sorted_from(combos[i].as_slice());
            hands.push(h);
            i += 1;
        }
        hands
    }

    /// The strongest five-card hand out of the seven cards. Among hands of
    /// equal rank, the last in the order of `combinations` is returned.
    pub fn best_hand(&self) -> (r: Hand)
        ensures
            exists|i: int| is_last_best(self@, i) && r@ == self.hands()[i],
            forall|i: int|
                0 <= i < self.hands().len() ==> rank_cmp(r.rank_spec(), rank_of(#[trigger] self.hands()[i]))
                    != std::cmp::Ordering::Less,
            r.wf(),
    {
        let hands = self.combinations();
        proof {
            lemma_card_combos(self@, 5);
        }
        let mut best = hands[0];
        let mut best_rank = best.rank();
        let ghost mut at: int = 0;
        let mut i: usize = 1;
        proof {
            assert(best@ == self.hands()[0]);
            lemma_lex_ge_refl(best.rank_spec().1);
        }
        while i < hands.len()
            invariant
                1 <= i <= hands@.len(),
                hands@.len() == self.hands().len(),
                forall|j: int| 0 <= j < hands@.len() ==> (#[trigger] hands@[j])@ == self.hands()[j],
                forall|j: int| 0 <= j < hands@.len() ==> (#[trigger] hands@[j]).wf(),
                0 <= at < hands@.len(),
                best == hands@[at],
                best_rank.model() == best.rank_spec(),
                forall|j: int|
                    0 <= j < i ==> rank_cmp(best.rank_spec(), rank_of(#[trigger] self.hands()[j]))
                        != std::cmp::Ordering::Less,
                forall|j: int|
                    at < j < i ==> rank_cmp(best.rank_spec(), rank_of(#[trigger] self.hands()[j]))
                        == std::cmp::Ordering::Greater,
            decreases hands.len() - i,
        {
            let h = hands[i];
            let hr = h.rank();
            let ord = hr.compare(&best_rank);
            proof {
                assert(h@ == self.hands()[i as int]);
                assert(ord == rank_cmp(h.rank_spec(), best.rank_spec()));
            }
            if let std::cmp::Ordering::Less = ord {
                proof {
                    lemma_rank_cmp_flip(h.rank_spec(), best.rank_spec());
                }
            } else {
                proof {
                    assert forall|j: int| 0 <= j < i + 1 implies rank_cmp(
                        h.rank_spec(),
                        rank_of(#[trigger] self.hands()[j]),
                    ) != std::cmp::Ordering::Less by {
                        if j < i {
                            lemma_rank_ge_trans(
                                h.rank_spec(),
                                best.rank_spec(),
                                rank_of(self.hands()[j]),
                            );
                        } else {
                            lemma_lex_ge_refl(h.rank_spec().1);
                        }
                    }
                }
                best = h;
                best_rank = hr;
                proof {
                    at = i as int;
                }
            }
            i += 1;
        }
        assert(is_last_best(self@, at));
        best
    }

    /// The deal as text, such as `"AS 3S + 9S TS JS QS KS"`.
    pub fn to_string(&self) -> (r: String)
        ensures
            r@ == deal_text(self@),
    {
        let mut out = String::new();
        self.hole[0].write_to(&mut out);
        out.append(" ");
        self.hole[1].write_to(&mut out);
        out.append(" + ");
        self.community[0].write_to(&mut out);
        out.append(" ");
        self.community[1].write_to(&mut out);
        out.append(" ");
        self.community[2].write_to(&mut out);
        out.append(" ");
        self.community[3].write_to(&mut out);
        out.append(" ");
        self.community[4].write_to(&mut out);
        proof {
            reveal_strlit(" ");
            reveal_strlit(" + ");
        }
        assert(out@ =~= deal_text(self@));
        out
    }
}

} // verus!
