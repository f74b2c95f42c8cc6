use poker::{Face, Hand, Rank};
use std::cmp::Ordering;

fn rank_of(text: &str) -> Rank {
    let hand: Hand = text.parse().unwrap();
    hand.rank()
}

#[test]
fn test_royal_flush() {
    let hand: Hand = "AH KH QH JH TH".parse().unwrap();
    let rank: Rank = hand.rank();
    assert_eq!(Rank::RoyalFlush, rank);
}

#[test]
fn test_straight_flush() {
    let hand: Hand = "6H 7H 8H 9H TH".parse().unwrap();
    let rank: Rank = hand.rank();
    assert_eq!(Rank::StraightFlush(Face::Ten), rank);
}

#[test]
fn test_four_of_a_kind() {
    let hand: Hand = "AH AC AD AS KH".parse().unwrap();
    let rank: Rank = hand.rank();
    assert_eq!(Rank::FourOfAKind(Face::Ace, [Face::King]), rank);
}

#[test]
fn test_full_house() {
    let hand: Hand = "AH AC AD KS KH".parse().unwrap();
    let rank: Rank = hand.rank();
    assert_eq!(Rank::FullHouse(Face::Ace, Face::King), rank);
}

#[test]
fn test_flush() {
    let hand: Hand = "2S 4S 6S 9S 5S".parse().unwrap();
    let rank: Rank = hand.rank();
    assert_eq!(
        Rank::Flush([Face::Nine, Face::Six, Face::Five, Face::Four, Face::Two]),
        rank
    );
}

#[test]
fn test_straight() {
    let hand: Hand = "TH 9C 8D 7S 6H".parse().unwrap();
    let rank: Rank = hand.rank();
    assert_eq!(Rank::Straight(Face::Ten), rank);
}

#[test]
fn test_threeofakind() {
    let hand: Hand = "AH AD AC KS QH".parse().unwrap();
    let rank: Rank = hand.rank();
    assert_eq!(
        Rank::ThreeOfAKind(Face::Ace, [Face::King, Face::Queen]),
        rank
    );
}

#[test]
fn test_twopair() {
    let hand: Hand = "AH AD KD KS 7H".parse().unwrap();
    let rank: Rank = hand.rank();
    assert_eq!(Rank::TwoPair(Face::Ace, Face::King, [Face::Seven]), rank);
}

#[test]
fn test_pair() {
    let hand: Hand = "AH AD KD JS 7H".parse().unwrap();
    let rank: Rank = hand.rank();
    assert_eq!(
        Rank::Pair(Face::Ace, [Face::King, Face::Jack, Face::Seven]),
        rank
    );
}

#[test]
fn test_high_card() {
    let hand: Hand = "AH KS QD 9S 7H".parse().unwrap();
    let rank: Rank = hand.rank();
    assert_eq!(
        Rank::HighCard([Face::Ace, Face::King, Face::Queen, Face::Nine, Face::Seven]),
        rank
    );
}

#[test]
fn rank_test_ord() {
    let hands: Vec<Hand> = vec![
        "AH KS QD 9S 7H",
        "AH AD KD JS 7H",
        "AH AD KD KS 7H",
        "AH AD AC KS QH",
        "TH 9C 8D 7S 6H",
        "KC TC 8C 7C 5C",
        "AH AC AD KS KH",
        "AH AC AD AS KH",
        "6H 7H 8H 9H TH",
        "AH KH QH JH TH",
    ]
    .into_iter()
    .map(|s| s.parse().unwrap())
    .collect();
    let mut reversed = hands.clone();
    reversed.reverse();
    reversed.sort_by(|a, b| a.compare(b));
    assert_eq!(hands, reversed);
}

#[test]
fn wheel_is_lowest_straight_flush_in_every_suit() {
    for s in ["C", "D", "H", "S"] {
        let wheel = rank_of(&format!("A{s} 5{s} 4{s} 3{s} 2{s}"));
        assert_eq!(wheel, Rank::StraightFlush(Face::Five));
        let ten_high = rank_of(&format!("6{s} 7{s} 8{s} 9{s} T{s}"));
        assert_eq!(ten_high, Rank::StraightFlush(Face::Ten));
        let royal = rank_of(&format!("T{s} J{s} Q{s} K{s} A{s}"));
        assert_eq!(royal, Rank::RoyalFlush);
        assert_eq!(wheel.compare(&ten_high), Ordering::Less);
        assert_eq!(wheel.compare(&royal), Ordering::Less);
    }
}

#[test]
fn wheel_straight_is_keyed_on_five() {
    let wheel = rank_of("AH 5C 4D 3S 2H");
    assert_eq!(wheel, Rank::Straight(Face::Five));
    assert_eq!(wheel.compare(&rank_of("6H 5C 4D 3S 2H")), Ordering::Less);
    assert_eq!(rank_of("AH KC QD JS TH"), Rank::Straight(Face::Ace));
}

#[test]
fn adjacent_categories_are_ordered() {
    let ladder = [
        "AH KS QD 9S 7H",
        "2H 2D 3D 4S 5H",
        "2H 2D 3D 3S 4H",
        "2H 2D 2C 3S 4H",
        "2H 3D 4D 5S 6H",
        "2C 3C 4C 5C 7C",
        "2H 2D 2C 3S 3H",
        "2H 2D 2C 2S 3H",
        "AH 2H 3H 4H 5H",
        "AH KH QH JH TH",
    ];
    for pair in ladder.windows(2) {
        let lower = rank_of(pair[0]);
        let higher = rank_of(pair[1]);
        assert_eq!(higher.compare(&lower), Ordering::Greater);
        assert_eq!(lower.compare(&higher), Ordering::Less);
    }
}

#[test]
fn twopair_loses_to_three_of_a_kind() {
    let two_pair = rank_of("AH AD KD KS 7H");
    assert_eq!(two_pair, Rank::TwoPair(Face::Ace, Face::King, [Face::Seven]));
    let trips = rank_of("AH AD AC KS QH");
    assert_eq!(trips.compare(&two_pair), Ordering::Greater);
    assert_eq!(two_pair.compare(&trips), Ordering::Less);
}

#[test]
fn kickers_break_ties_and_equal_hands_tie() {
    let a = rank_of("AH AD KD JS 7H");
    let b = rank_of("AC AS KH JD 6H");
    assert_eq!(a.compare(&b), Ordering::Greater);
    let c = rank_of("AC AS KH JD 7D");
    assert_eq!(a.compare(&c), Ordering::Equal);
    let h1: Hand = "AH AD KD JS 7H".parse().unwrap();
    let h2: Hand = "AC AS KH JD 7D".parse().unwrap();
    assert_eq!(h1.compare(&h2), Ordering::Equal);
}

#[test]
fn from_counts_classifies_directly() {
    let faces = [
        (2, Face::Nine),
        (2, Face::Four),
        (1, Face::Ace),
        (0, Face::King),
        (0, Face::Queen),
    ];
    assert_eq!(
        Rank::from_counts(faces, false, false),
        Rank::TwoPair(Face::Nine, Face::Four, [Face::Ace])
    );
    assert_eq!(Rank::RoyalFlush.category_code(), 9);
    assert_eq!(Rank::Pair(Face::Ace, [Face::King, Face::Jack, Face::Two]).key_strengths(), vec![12, 11, 9, 0]);
}
