use std::collections::{HashMap, HashSet};

use durak::card::Card;
use durak::deck::PlayerData;
use durak::table::{
    beatable_cards, get_transferrable_cards, play_card, take_all_card, throwable_cards, AttackerDeck,
    DefenderDeck,
};

fn card(trump: bool) -> Card {
    Card { suit: 's', trump }
}

fn cards(values: &[u8]) -> HashMap<u8, Card> {
    values.iter().map(|v| (*v, card(false))).collect()
}

fn set(values: &[u8]) -> HashSet<u8> {
    values.iter().copied().collect()
}

fn empty_defence() -> DefenderDeck {
    DefenderDeck { pairs_beaten_cards: HashMap::new(), defending_cards: HashMap::new(), how_much_cards_defender_have: 6 }
}

#[test]
fn play_card_lays_chosen_cards() {
    let mut attack = AttackerDeck { attacking_cards: cards(&[1, 2]) };
    let mut chosen = HashMap::new();
    chosen.insert(2u8, card(true));
    play_card(&mut attack, &mut chosen);
    assert!(chosen.is_empty());
    assert_eq!(attack.attacking_cards.len(), 2);
    assert_eq!(attack.attacking_cards[&2], card(true));
}

#[test]
fn play_nothing() {
    let mut attack = AttackerDeck { attacking_cards: cards(&[1]) };
    let mut chosen = HashMap::new();
    play_card(&mut attack, &mut chosen);
    assert_eq!(attack.attacking_cards, cards(&[1]));
}

#[test]
fn throwable_by_rank_on_table() {
    let attack = AttackerDeck { attacking_cards: cards(&[1]) };
    let mut defence = empty_defence();
    defence.defending_cards = cards(&[11]);
    let player = PlayerData { cards: cards(&[10, 20, 2, 3, 13]), bot: false };
    let throwable = throwable_cards(attack, defence, player, 9);
    let mut values: Vec<u8> = throwable.keys().copied().collect();
    values.sort();
    // ranks on the table: 1 % 9 = 1 and 11 % 9 = 2
    assert_eq!(values, vec![2, 10, 20]);
}

#[test]
fn nothing_throwable_on_empty_table() {
    let attack = AttackerDeck { attacking_cards: HashMap::new() };
    let player = PlayerData { cards: cards(&[1, 2]), bot: false };
    assert!(throwable_cards(attack, empty_defence(), player, 9).is_empty());
}

#[test]
fn take_all_collects_the_table() {
    let mut attack = AttackerDeck { attacking_cards: cards(&[1, 2]) };
    let mut defence = empty_defence();
    defence.defending_cards = cards(&[3]);
    defence.pairs_beaten_cards.insert(1, 3);
    let mut player = PlayerData { cards: cards(&[4]), bot: true };
    take_all_card(&mut attack, &mut defence, &mut player);
    assert!(attack.attacking_cards.is_empty());
    assert!(defence.defending_cards.is_empty());
    assert!(defence.pairs_beaten_cards.is_empty());
    assert_eq!(defence.how_much_cards_defender_have, 6);
    assert_eq!(player.cards, cards(&[1, 2, 3, 4]));
    assert!(player.bot);
}

#[test]
fn transfer_with_one_rank() {
    let allowed = get_transferrable_cards(cards(&[19, 28, 2]), cards(&[1, 10]), 9);
    assert_eq!(allowed, set(&[19, 28]));
}

#[test]
fn no_transfer_against_four_cards() {
    let allowed = get_transferrable_cards(cards(&[19, 28]), cards(&[1, 10, 19, 28]), 9);
    assert!(allowed.is_empty());
}

#[test]
fn no_transfer_without_attack() {
    assert!(get_transferrable_cards(cards(&[19, 28]), HashMap::new(), 9).is_empty());
}

#[test]
fn no_transfer_against_two_ranks() {
    let allowed = get_transferrable_cards(cards(&[1, 2, 19]), cards(&[1, 2]), 9);
    assert!(allowed.is_empty());
}

#[test]
fn transfer_against_rank_zero_and_another() {
    // ranks 0 (value 9) and 1 (value 10): the answer depends on the walk order
    let allowed = get_transferrable_cards(cards(&[1, 18, 19]), cards(&[9, 10]), 9);
    assert!(allowed.is_empty() || allowed == set(&[1, 19]));
}

#[test]
fn transfer_against_rank_zero() {
    let allowed = get_transferrable_cards(cards(&[18, 27, 5]), cards(&[9]), 9);
    assert_eq!(allowed, set(&[18, 27]));
}

#[test]
fn trump_beaten_by_higher_trump() {
    let mut hand = HashMap::new();
    hand.insert(6u8, card(true));
    hand.insert(4u8, card(true));
    hand.insert(7u8, card(false));
    let beaten = card(true);
    assert_eq!(beatable_cards(hand, (&5, &beaten), 9), set(&[6]));
}

#[test]
fn plain_card_beaten_by_higher_same_rank_or_trump() {
    let mut hand = HashMap::new();
    hand.insert(19u8, card(false)); // rank 1, higher
    hand.insert(1u8, card(false)); // rank 1, lower
    hand.insert(2u8, card(false)); // other rank
    hand.insert(3u8, card(true)); // trump
    let beaten = card(false);
    assert_eq!(beatable_cards(hand, (&10, &beaten), 9), set(&[19, 3]));
}

#[test]
fn nothing_beats_from_empty_hand() {
    let beaten = card(false);
    assert!(beatable_cards(HashMap::new(), (&10, &beaten), 9).is_empty());
}
