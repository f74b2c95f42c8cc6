use poker::{deal, showdown, Card, Deal, Deck, Hand, Outcome, PokerError, Rank};
use std::cmp::Ordering;

fn cards<const N: usize>(tokens: [&str; N]) -> [Card; N] {
    tokens.map(|c| c.parse().unwrap())
}

#[test]
fn test_to_string() {
    let deal = Deal::new(cards(["AS", "3S"]), cards(["9S", "TS", "JS", "QS", "KS"]));
    assert_eq!(deal.to_string(), "AS 3S + 9S TS JS QS KS");
}

#[test]
fn test_combinations() {
    let deal = Deal::new(cards(["AS", "3S"]), cards(["9S", "TS", "JS", "QS", "KS"]));
    assert_eq!(
        deal.combinations()
            .into_iter()
            .map(|h| h.to_string())
            .collect::<Vec<String>>(),
        vec![
            "AS JS TS 9S 3S",
            "AS QS TS 9S 3S",
            "AS KS TS 9S 3S",
            "AS QS JS 9S 3S",
            "AS KS JS 9S 3S",
            "AS KS QS 9S 3S",
            "AS QS JS TS 3S",
            "AS KS JS TS 3S",
            "AS KS QS TS 3S",
            "AS KS QS JS 3S",
            "AS QS JS TS 9S",
            "AS KS JS TS 9S",
            "AS KS QS TS 9S",
            "AS KS QS JS 9S",
            "AS KS QS JS TS",
            "QS JS TS 9S 3S",
            "KS JS TS 9S 3S",
            "KS QS TS 9S 3S",
            "KS QS JS 9S 3S",
            "KS QS JS TS 3S",
            "KS QS JS TS 9S"
        ]
    );
}

#[test]
fn test_deal() {
    let deck = Deck::new([40, 41, 42, 43, 48, 49, 50, 51, 52]).unwrap();
    let deal = deck.deal();
    assert_eq!(deal[0].to_string(), "AS 3S + 9S TS JS QS KS");
    assert_eq!(deal[1].to_string(), "2S 4S + 9S TS JS QS KS");
}

#[test]
fn combine_lists_hole_then_community() {
    let deal = Deal::new(cards(["AS", "3S"]), cards(["9S", "TS", "JS", "QS", "KS"]));
    assert_eq!(deal.combine(), cards(["AS", "3S", "9S", "TS", "JS", "QS", "KS"]));
}

#[test]
fn combinations_of_small_sets() {
    let all = cards(["AS", "KS", "QS"]);
    assert_eq!(poker::deal::combinations(&all, 2).len(), 3);
    assert_eq!(poker::deal::combinations(&all, 0), vec![Vec::<Card>::new()]);
    assert!(poker::deal::combinations(&all, 4).is_empty());
    assert_eq!(
        poker::deal::combinations(&all, 2),
        vec![
            cards(["AS", "KS"]).to_vec(),
            cards(["AS", "QS"]).to_vec(),
            cards(["KS", "QS"]).to_vec()
        ]
    );
}

#[test]
fn best_hand_royal_flush() {
    let deal = Deal::new(cards(["AS", "3S"]), cards(["9S", "TS", "JS", "QS", "KS"]));
    let best = deal.best_hand();
    assert_eq!(best.to_string(), "AS KS QS JS TS");
    assert_eq!(best.rank(), Rank::RoyalFlush);
}

#[test]
fn best_hand_is_maximum_of_all_subsets() {
    let deals = [
        Deal::new(cards(["AS", "3S"]), cards(["9S", "TS", "JS", "QS", "KS"])),
        Deal::new(cards(["2S", "4S"]), cards(["9S", "TS", "JS", "QS", "KS"])),
        Deal::new(cards(["7D", "7C"]), cards(["7H", "2S", "2D", "KC", "5H"])),
        Deal::new(cards(["AH", "2D"]), cards(["3C", "4S", "5H", "9D", "JC"])),
    ];
    for d in deals {
        let hands = d.combinations();
        assert_eq!(hands.len(), 21);
        let best = d.best_hand();
        for h in &hands {
            assert_ne!(best.compare(h), Ordering::Less);
        }
        assert!(hands.contains(&best));
    }
}

#[test]
fn royal_beats_flush_in_two_player_deal() {
    let first = Deal::new(cards(["AS", "3S"]), cards(["9S", "TS", "JS", "QS", "KS"]));
    let second = Deal::new(cards(["2S", "4S"]), cards(["9S", "TS", "JS", "QS", "KS"]));
    assert_eq!(first.best_hand().rank(), Rank::RoyalFlush);
    assert_eq!(
        first.best_hand().compare(&second.best_hand()),
        Ordering::Greater
    );
    assert_eq!(showdown(&first, &second), Outcome::FirstPlayer);
    assert_eq!(showdown(&second, &first), Outcome::SecondPlayer);
    assert_eq!(
        deal([40, 41, 42, 43, 48, 49, 50, 51, 52]).unwrap(),
        vec!["AS", "KS", "QS", "JS", "TS"]
    );
}

#[test]
fn board_plays_for_both_is_a_tie() {
    let first = Deal::new(cards(["2C", "3D"]), cards(["AS", "KS", "QS", "JS", "TS"]));
    let second = Deal::new(cards(["4C", "5D"]), cards(["AS", "KS", "QS", "JS", "TS"]));
    assert_eq!(showdown(&first, &second), Outcome::Tie);
}

#[test]
fn deal_refuses_bad_indices() {
    assert_eq!(
        deal([0, 41, 42, 43, 48, 49, 50, 51, 52]),
        Err(PokerError::InvalidEncoding(poker::EncodingKind::Card))
    );
    assert_eq!(
        Deck::new([1, 2, 3, 4, 5, 6, 7, 8, 53]),
        Err(PokerError::InvalidEncoding(poker::EncodingKind::Card))
    );
}

#[test]
fn hand_from_deal_subset_matches_new() {
    let h = Hand::new(&cards(["9S", "AS", "3S", "JS", "TS"])).unwrap();
    assert_eq!(h.to_string(), "AS JS TS 9S 3S");
}

#[test]
fn best_hand_takes_last_of_equal_subsets() {
    let deal = Deal::new(cards(["QC", "2C"]), cards(["AS", "AD", "KH", "KD", "QS"]));
    let best = deal.best_hand();
    assert_eq!(best.to_string(), "AS AD KH KD QS");
}

#[test]
fn deal_refuses_repeated_positions() {
    assert_eq!(
        Deck::new([40, 41, 42, 43, 48, 49, 50, 51, 40]),
        Err(PokerError::DuplicateCard)
    );
    assert_eq!(
        deal([40, 41, 42, 43, 48, 49, 50, 52, 52]),
        Err(PokerError::DuplicateCard)
    );
    assert_eq!(
        deal([40, 41, 42, 43, 48, 49, 50, 52, 60]),
        Err(PokerError::InvalidEncoding(poker::EncodingKind::Card))
    );
}
