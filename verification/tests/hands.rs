use std::collections::HashMap;

use durak::card::Card;
use durak::deck::PlayerData;
use durak::hand::{check_duplicate_cards, get_playable_cards_with_duplicate, who_is_first};

fn card(trump: bool) -> Card {
    Card { suit: 'c', trump }
}

fn hand(values: &[u8]) -> HashMap<u8, Card> {
    values.iter().map(|v| (*v, card(false))).collect()
}

#[test]
fn duplicate_suit_found() {
    assert!(check_duplicate_cards(&hand(&[1, 2]), 9));
    assert!(check_duplicate_cards(&hand(&[1, 10, 18]), 9));
}

#[test]
fn no_duplicate_suit() {
    assert!(!check_duplicate_cards(&hand(&[1, 10, 19, 28]), 9));
    assert!(!check_duplicate_cards(&hand(&[]), 9));
    assert!(!check_duplicate_cards(&hand(&[5]), 9));
}

#[test]
fn empty_playable_takes_whole_hand() {
    let mut player = hand(&[1, 10, 19]);
    let mut playable = HashMap::new();
    get_playable_cards_with_duplicate(&mut player, &mut playable, 9);
    assert_eq!(playable, player);
    assert_eq!(player.len(), 3);
}

#[test]
fn playable_grows_by_cards_of_its_suit() {
    let mut player = hand(&[2, 3, 10, 19]);
    let mut playable = hand(&[1]);
    get_playable_cards_with_duplicate(&mut player, &mut playable, 9);
    let mut values: Vec<u8> = playable.keys().copied().collect();
    values.sort();
    assert_eq!(values, vec![1, 2, 3]);
}

#[test]
fn playable_of_mixed_suits_only_grows_by_those_suits() {
    let mut player = hand(&[2, 11, 28]);
    let mut playable = hand(&[1, 10]);
    get_playable_cards_with_duplicate(&mut player, &mut playable, 9);
    assert!(!playable.contains_key(&28));
    assert!(playable.contains_key(&1) && playable.contains_key(&10));
}

#[test]
fn first_player_holds_a_trump() {
    let mut players = HashMap::new();
    players.insert(1u8, PlayerData { cards: hand(&[1, 2]), bot: false });
    let mut with_trump = hand(&[3]);
    with_trump.insert(4, card(true));
    players.insert(2u8, PlayerData { cards: with_trump, bot: false });
    players.insert(3u8, PlayerData { cards: hand(&[5]), bot: true });
    assert_eq!(who_is_first(players), 2);
}

#[test]
fn nobody_holds_a_trump() {
    let mut players = HashMap::new();
    players.insert(1u8, PlayerData { cards: hand(&[1, 2]), bot: false });
    players.insert(2u8, PlayerData { cards: hand(&[]), bot: false });
    players.insert(5u8, PlayerData { cards: hand(&[3]), bot: false });
    for _ in 0..50 {
        let first = who_is_first(players.clone());
        assert!((1..=5).contains(&first));
    }
}

#[test]
fn first_player_among_several_trump_holders() {
    let mut players = HashMap::new();
    for id in 1..=4u8 {
        let mut cards = hand(&[id]);
        if id % 2 == 0 {
            cards.insert(20 + id, card(true));
        }
        players.insert(id, PlayerData { cards, bot: false });
    }
    // trumps 22 (seat 2) and 24 (seat 4): the lowest trump moves first
    assert_eq!(who_is_first(players), 2);
}

#[test]
fn lowest_trump_decides_not_the_seat() {
    let mut players = HashMap::new();
    let mut low = hand(&[1]);
    low.insert(9, card(true));
    let mut high = hand(&[2]);
    high.insert(30, card(true));
    high.insert(31, card(true));
    players.insert(1u8, PlayerData { cards: high, bot: false });
    players.insert(7u8, PlayerData { cards: low, bot: false });
    assert_eq!(who_is_first(players), 7);
}
