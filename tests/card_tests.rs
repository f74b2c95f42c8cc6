use poker::{Card, EncodingKind, Face, PokerError, Suit};

#[test]
fn test_from_int() {
    let card: Card = Card::from_index(16).unwrap();
    assert_eq!(card.to_string(), "3D");
    let card: Card = Card::from_index(49).unwrap();
    assert_eq!(card.to_string(), "TS");
}

#[test]
fn test_from_str() {
    let card: Card = "3D".parse().unwrap();
    assert_eq!(Card::from_index(16).unwrap(), card);
    let card: Card = "QH".parse().unwrap();
    assert_eq!(Card::from_index(38).unwrap(), card);
}

#[test]
fn face_test_ord() {
    assert!(Face::Ten > Face::Five);
    assert!(Face::Ace > Face::King);
}

#[test]
fn index_round_trip_all_cards() {
    for i in 1..=52u32 {
        let card = Card::from_index(i).unwrap();
        assert_eq!(card.to_index(), i);
    }
}

#[test]
fn index_layout() {
    assert_eq!(Card::from_index(1).unwrap(), Card::new(Suit::Clubs, Face::Ace));
    assert_eq!(Card::from_index(13).unwrap(), Card::new(Suit::Clubs, Face::King));
    assert_eq!(Card::from_index(14).unwrap(), Card::new(Suit::Diamonds, Face::Ace));
    assert_eq!(Card::from_index(52).unwrap(), Card::new(Suit::Spades, Face::King));
}

#[test]
fn index_out_of_range() {
    assert_eq!(
        Card::from_index(0),
        Err(PokerError::InvalidEncoding(EncodingKind::Card))
    );
    assert_eq!(
        Card::from_index(53),
        Err(PokerError::InvalidEncoding(EncodingKind::Card))
    );
    assert_eq!(
        Face::from_index(13),
        Err(PokerError::InvalidEncoding(EncodingKind::Face))
    );
    assert_eq!(
        Suit::from_index(4),
        Err(PokerError::InvalidEncoding(EncodingKind::Suit))
    );
}

#[test]
fn token_round_trip_all_tokens() {
    for f in "A23456789TJQK".chars() {
        for s in "CDHS".chars() {
            let token = format!("{}{}", f, s);
            let card = Card::parse(&token).unwrap();
            assert_eq!(card.to_string(), token);
        }
    }
}

#[test]
fn token_errors() {
    assert_eq!(
        Card::parse("1S"),
        Err(PokerError::InvalidEncoding(EncodingKind::Face))
    );
    assert_eq!(
        Card::parse("AX"),
        Err(PokerError::InvalidEncoding(EncodingKind::Suit))
    );
    assert_eq!(
        Card::parse("10S"),
        Err(PokerError::InvalidEncoding(EncodingKind::Card))
    );
    assert_eq!(
        Card::parse(""),
        Err(PokerError::InvalidEncoding(EncodingKind::Card))
    );
}

#[test]
fn face_and_suit_tokens() {
    assert_eq!(Face::Ten.to_str(), "T");
    assert_eq!(Face::Ace.to_str(), "A");
    assert_eq!(Suit::Hearts.to_str(), "H");
    assert_eq!(Face::from_char('Q'), Ok(Face::Queen));
    assert_eq!(Suit::from_char('D'), Ok(Suit::Diamonds));
    assert!(Face::Ace.is_ace());
    assert!(!Face::King.is_ace());
    assert_eq!(Face::from_index(0), Ok(Face::Ace));
    assert_eq!(Face::from_index(1), Ok(Face::Two));
    assert_eq!(Face::Ace.to_index(), 0);
    assert_eq!(Face::King.to_index(), 12);
    assert_eq!(Face::King.strength(), 11);
}

#[test]
fn counters_start_at_zero() {
    let faces = Face::counters();
    assert_eq!(faces[0], (0, Face::Two));
    assert_eq!(faces[12], (0, Face::Ace));
    let suits = Suit::counters();
    assert_eq!(suits, [(0, Suit::Clubs), (0, Suit::Diamonds), (0, Suit::Hearts), (0, Suit::Spades)]);
}
