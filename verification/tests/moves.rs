use std::collections::{HashMap, HashSet};

use durak::card::Card;
use durak::deck::PlayerData;
use durak::moves::{
    all_beaten, beat_with, pick_card, pick_from_hand, start_defence, throwable_count, transfer_card, Defence,
};
use durak::table::{AttackerDeck, DefenderDeck};

fn card(trump: bool) -> Card {
    Card { suit: 'h', trump }
}

fn cards(values: &[u8]) -> HashMap<u8, Card> {
    values.iter().map(|v| (*v, card(false))).collect()
}

fn defence(held: u8) -> DefenderDeck {
    DefenderDeck { pairs_beaten_cards: HashMap::new(), defending_cards: HashMap::new(), how_much_cards_defender_have: held }
}

#[test]
fn count_of_cards_still_throwable() {
    let mut d = defence(6);
    assert_eq!(throwable_count(&d), 6);
    d.pairs_beaten_cards.insert(1, 2);
    d.pairs_beaten_cards.insert(3, 4);
    assert_eq!(throwable_count(&d), 4);
}

#[test]
fn pick_playable_card() {
    let mut chosen = HashMap::new();
    let mut playable = cards(&[1, 2]);
    let mut left = 3u8;
    assert!(pick_card(&mut chosen, &mut playable, &mut left, 2));
    assert_eq!(chosen, cards(&[2]));
    assert_eq!(playable, cards(&[1]));
    assert_eq!(left, 2);
    assert!(!pick_card(&mut chosen, &mut playable, &mut left, 2));
    assert_eq!(left, 2);
    assert_eq!(chosen, cards(&[2]));
}

#[test]
fn pick_card_of_hand() {
    let mut chosen = HashMap::new();
    let hand = cards(&[5, 6]);
    assert!(pick_from_hand(&mut chosen, &hand, 6));
    assert_eq!(chosen, cards(&[6]));
    assert!(!pick_from_hand(&mut chosen, &hand, 7));
    assert_eq!(chosen, cards(&[6]));
}

#[test]
fn defence_against_unknown_card() {
    let mut attack = AttackerDeck { attacking_cards: cards(&[1]) };
    let mut d = defence(6);
    let mut player = PlayerData { cards: cards(&[19]), bot: false };
    assert!(matches!(start_defence(&mut attack, &mut d, &mut player, 2, 9), Defence::NotAttacking));
    assert_eq!(player.cards, cards(&[19]));
}

#[test]
fn defence_without_beating_card_takes_all() {
    let mut attack = AttackerDeck { attacking_cards: cards(&[10]) };
    let mut d = defence(6);
    let mut player = PlayerData { cards: cards(&[2]), bot: false };
    assert!(matches!(start_defence(&mut attack, &mut d, &mut player, 10, 9), Defence::TookAll));
    assert!(attack.attacking_cards.is_empty());
    assert_eq!(player.cards, cards(&[2, 10]));
}

#[test]
fn defence_then_beat() {
    let mut attack = AttackerDeck { attacking_cards: cards(&[10]) };
    let mut d = defence(6);
    let mut player = PlayerData { cards: cards(&[19, 2]), bot: false };
    let options = match start_defence(&mut attack, &mut d, &mut player, 10, 9) {
        Defence::Beatable(values) => values,
        _ => panic!("expected cards that beat"),
    };
    assert_eq!(options, [19u8].into_iter().collect::<HashSet<u8>>());
    assert!(!all_beaten(&attack, &d));
    assert!(!beat_with(&mut d, &mut player, 10, 2, &options));
    assert!(beat_with(&mut d, &mut player, 10, 19, &options));
    assert_eq!(d.pairs_beaten_cards.get(&10), Some(&19));
    assert_eq!(d.defending_cards, cards(&[19]));
    assert_eq!(player.cards, cards(&[2]));
    assert!(all_beaten(&attack, &d));
}

#[test]
fn transfer_moves_card_to_attack() {
    let mut attack = AttackerDeck { attacking_cards: cards(&[1]) };
    let mut player = PlayerData { cards: cards(&[10]), bot: false };
    assert!(!transfer_card(&mut attack, &mut player, 11));
    assert!(transfer_card(&mut attack, &mut player, 10));
    assert_eq!(attack.attacking_cards, cards(&[1, 10]));
    assert!(player.cards.is_empty());
}
