use poker::{Card, Face, Hand, PokerError, Suit};

#[test]
fn test_face_offsets() {
    let hand: Hand = "AH 5C 4D 3S 2H".parse().unwrap();
    assert_eq!(hand.face_offsets(), [12, 3, 2, 1, 0]);
    let hand: Hand = "TH 9C 8D 7S 6H".parse().unwrap();
    assert_eq!(hand.face_offsets(), [4, 3, 2, 1, 0]);
    let hand: Hand = "TH 9C 9D 7S 6H".parse().unwrap();
    assert_eq!(hand.face_offsets(), [4, 3, 3, 1, 0]);
}

#[test]
fn test_is_straight() {
    let hand: Hand = "AH 5C 4D 3S 2H".parse().unwrap();
    assert!(hand.is_straight());
    let hand: Hand = "TH 9C 8D 7S 6H".parse().unwrap();
    assert!(hand.is_straight());
    let hand: Hand = "TH 9C 9D 7S 6H".parse().unwrap();
    assert!(!hand.is_straight());
}

#[test]
fn test_counts() {
    let hand: Hand = "AH AD AC KS QH".parse().unwrap();
    assert_eq!(
        hand.counts(),
        (
            [
                (3, Face::Ace),
                (1, Face::King),
                (1, Face::Queen),
                (0, Face::Jack),
                (0, Face::Ten),
            ],
            [
                (2, Suit::Hearts),
                (1, Suit::Spades),
                (1, Suit::Diamonds),
                (1, Suit::Clubs),
            ],
            false
        ),
    );
    let hand: Hand = "AH KC QD 9S 7H".parse().unwrap();
    assert_eq!(
        hand.counts(),
        (
            [
                (1, Face::Ace),
                (1, Face::King),
                (1, Face::Queen),
                (1, Face::Nine),
                (1, Face::Seven),
            ],
            [
                (2, Suit::Hearts),
                (1, Suit::Spades),
                (1, Suit::Diamonds),
                (1, Suit::Clubs),
            ],
            false
        ),
    );
    let hand: Hand = "TH 9C 8D 7S 6H".parse().unwrap();
    assert_eq!(
        hand.counts(),
        (
            [
                (1, Face::Ten),
                (1, Face::Nine),
                (1, Face::Eight),
                (1, Face::Seven),
                (1, Face::Six),
            ],
            [
                (2, Suit::Hearts),
                (1, Suit::Spades),
                (1, Suit::Diamonds),
                (1, Suit::Clubs),
            ],
            true
        ),
    );
    let hand: Hand = "AH 5C 4D 3S 2H".parse().unwrap();
    assert_eq!(
        hand.counts(),
        (
            [
                (1, Face::Five),
                (1, Face::Four),
                (1, Face::Three),
                (1, Face::Two),
                (0, Face::King),
            ],
            [
                (2, Suit::Hearts),
                (1, Suit::Spades),
                (1, Suit::Diamonds),
                (1, Suit::Clubs),
            ],
            true
        ),
    );
}

#[test]
fn test_display() {
    let hand: Hand = "AH AD AC KS QH".parse().unwrap();
    assert_eq!(hand.to_string(), "AH AD AC KS QH");
}

#[test]
fn new_sorts_by_face_keeping_input_order_of_ties() {
    let cards: Vec<Card> = ["2C", "AD", "KS", "AH", "2S"]
        .iter()
        .map(|t| t.parse().unwrap())
        .collect();
    let hand = Hand::new(&cards).unwrap();
    assert_eq!(hand.to_string(), "AD AH KS 2C 2S");
    assert_eq!(
        hand.as_str_vec(),
        vec!["AD", "AH", "KS", "2C", "2S"]
    );
    assert_eq!(hand.cards()[2], Card::new(Suit::Spades, Face::King));
    assert_eq!(hand.face_indexes(), [12, 12, 11, 0, 0]);
}

#[test]
fn new_refuses_wrong_sizes() {
    let cards: Vec<Card> = ["2C", "AD", "KS", "AH"]
        .iter()
        .map(|t| t.parse().unwrap())
        .collect();
    assert_eq!(Hand::new(&cards), Err(PokerError::InvalidHandSize));
    let cards: Vec<Card> = ["2C", "AD", "KS", "AH", "3H", "4H"]
        .iter()
        .map(|t| t.parse().unwrap())
        .collect();
    assert_eq!(Hand::new(&cards), Err(PokerError::InvalidHandSize));
    assert_eq!(Hand::new(&[]), Err(PokerError::InvalidHandSize));
}

#[test]
fn new_refuses_repeated_cards() {
    let cards: Vec<Card> = ["2C", "AD", "KS", "AD", "3H"]
        .iter()
        .map(|t| t.parse().unwrap())
        .collect();
    assert_eq!(Hand::new(&cards), Err(PokerError::DuplicateCard));
    assert_eq!(
        "2C AD KS AD 3H".parse::<Hand>(),
        Err(PokerError::DuplicateCard)
    );
}

#[test]
fn parse_errors() {
    assert_eq!("AH AD".parse::<Hand>(), Err(PokerError::InvalidHandSize));
    assert_eq!(
        "AH-AD AC KS QH".parse::<Hand>(),
        Err(PokerError::InvalidEncoding(poker::EncodingKind::Card))
    );
    assert_eq!(
        "AH XD AC KS QH".parse::<Hand>(),
        Err(PokerError::InvalidEncoding(poker::EncodingKind::Face))
    );
}

#[test]
fn rank_does_not_depend_on_input_order() {
    let orders = [
        ["AH", "AD", "KD", "KS", "7H"],
        ["7H", "KS", "KD", "AD", "AH"],
        ["KD", "7H", "AH", "KS", "AD"],
    ];
    let ranks: Vec<_> = orders
        .iter()
        .map(|o| {
            let cards: Vec<Card> = o.iter().map(|t| t.parse().unwrap()).collect();
            Hand::new(&cards).unwrap().rank()
        })
        .collect();
    assert_eq!(ranks[0], ranks[1]);
    assert_eq!(ranks[0], ranks[2]);
}

#[test]
fn wheel_counts_lead_with_five() {
    let hand: Hand = "5D AS 3C 2H 4S".parse().unwrap();
    let (faces, _, straight) = hand.counts();
    assert!(straight);
    assert_eq!(faces[0], (1, Face::Five));
    assert_eq!(hand.rank(), poker::Rank::Straight(Face::Five));
    let broadway: Hand = "AS KD QC JH TS".parse().unwrap();
    assert_eq!(broadway.counts().0[0], (1, Face::Ace));
}
