use std::collections::HashMap;

use durak::card::{count_div, filling_in_card_data, Card};
use durak::deck::{fill_player_deck, filled_card_deck, gen_deck_in_hand, remove_cards, DeckCards};
use durak::shuffle::gen_rand_deck;

fn plain(suit: char) -> Card {
    Card { suit, trump: false }
}

fn trump(suit: char) -> Card {
    Card { suit, trump: true }
}

fn deck_of(values: &[u8]) -> DeckCards {
    filled_card_deck(values, 9, 1)
}

#[test]
fn count_div_gives_suit_size() {
    assert_eq!(count_div(24), 6);
    assert_eq!(count_div(36), 9);
    assert_eq!(count_div(52), 13);
}

#[test]
fn card_data_follows_suit_and_trump() {
    assert_eq!(filling_in_card_data(1, 9, 1), trump('c'));
    assert_eq!(filling_in_card_data(9, 9, 1), trump('c'));
    assert_eq!(filling_in_card_data(10, 9, 1), plain('s'));
    assert_eq!(filling_in_card_data(19, 9, 20), trump('h'));
    assert_eq!(filling_in_card_data(36, 9, 1), plain('d'));
    assert_eq!(filling_in_card_data(24, 6, 19), trump('d'));
}

#[test]
fn trump_card_is_a_trump() {
    for t in 1..=36u8 {
        assert!(filling_in_card_data(t, 9, t).trump);
    }
}

#[test]
fn filled_deck_holds_each_value_once() {
    let deck = filled_card_deck(&[3, 12, 1, 36], 9, 12);
    assert_eq!(deck.cards.len(), 4);
    assert_eq!(deck.cards[&3], plain('c'));
    assert_eq!(deck.cards[&12], trump('s'));
    assert_eq!(deck.cards[&1], plain('c'));
    assert_eq!(deck.cards[&36], plain('d'));
}

#[test]
fn filled_deck_of_nothing_is_empty() {
    let deck = filled_card_deck(&[], 9, 0);
    assert!(deck.cards.is_empty());
}

#[test]
fn shuffle_of_empty_slots_is_a_permutation() {
    let shuffled = gen_rand_deck(vec![0; 36]);
    assert_eq!(shuffled.len(), 36);
    let mut sorted = shuffled.clone();
    sorted.sort();
    let expected: Vec<u8> = (1..=36).collect();
    assert_eq!(sorted, expected);
}

#[test]
fn shuffle_keeps_filled_slots() {
    // 300 slots, 299 of them empty: the values 256 (as a byte, 0) leave
    // their slot empty, so there is room for all of them.
    let mut slots = vec![0u8; 300];
    slots[7] = 200;
    let shuffled = gen_rand_deck(slots);
    assert_eq!(shuffled.len(), 300);
    assert_eq!(shuffled[7], 200);
    let mut counts = [0usize; 256];
    for v in &shuffled {
        counts[*v as usize] += 1;
    }
    // dealt: 1..=255 once, 0 once (its slot stays empty and is filled
    // later), 1..=44 once more; plus the 200 already there.
    assert_eq!(counts[0], 0);
    assert_eq!(counts[1], 2);
    assert_eq!(counts[44], 2);
    assert_eq!(counts[45], 1);
    assert_eq!(counts[200], 2);
    assert_eq!(counts[255], 1);
}

#[test]
fn shuffle_of_nothing_is_empty() {
    assert!(gen_rand_deck(Vec::new()).is_empty());
}

#[test]
fn hand_of_seven_from_deck() {
    let values: Vec<u8> = (1..=10).collect();
    let deck = deck_of(&values);
    let hand = gen_deck_in_hand(&deck, true);
    assert!(hand.bot);
    assert_eq!(hand.cards.len(), 7);
    for (v, c) in &hand.cards {
        assert_eq!(deck.cards.get(v), Some(c));
    }
    // the deck itself is left as it is
    assert_eq!(deck.cards.len(), 10);
}

#[test]
fn hand_from_deck_of_exactly_seven() {
    let values: Vec<u8> = (1..=7).collect();
    let deck = deck_of(&values);
    let hand = gen_deck_in_hand(&deck, false);
    assert!(!hand.bot);
    assert_eq!(hand.cards, deck.cards);
}

#[test]
fn dealing_removes_the_hand_from_the_deck() {
    let values: Vec<u8> = (1..=36).collect();
    let mut deck = deck_of(&values);
    let hand = gen_deck_in_hand(&deck, false);
    remove_cards(&mut deck.cards, &hand.cards);
    assert_eq!(deck.cards.len(), 29);
    for v in hand.cards.keys() {
        assert!(!deck.cards.contains_key(v));
    }
    for v in 1..=36u8 {
        assert!(deck.cards.contains_key(&v) != hand.cards.contains_key(&v));
    }
}

#[test]
fn remove_cards_ignores_absent_values() {
    let mut deck = deck_of(&[1, 2, 3]);
    let other = deck_of(&[2, 30]);
    remove_cards(&mut deck.cards, &other.cards);
    let mut left: Vec<u8> = deck.cards.keys().copied().collect();
    left.sort();
    assert_eq!(left, vec![1, 3]);
}

#[test]
fn refill_fills_hand_to_seven() {
    let values: Vec<u8> = (1..=20).collect();
    let mut deck = deck_of(&values);
    let mut hand: HashMap<u8, Card> = HashMap::new();
    hand.insert(30, plain('d'));
    hand.insert(31, plain('d'));
    hand.insert(32, plain('d'));
    fill_player_deck(&mut deck, &mut hand);
    assert_eq!(hand.len(), 7);
    assert_eq!(deck.cards.len(), 16);
    for v in hand.keys() {
        assert!(!deck.cards.contains_key(v));
    }
}

#[test]
fn refill_from_a_short_deck_takes_what_is_left() {
    let mut deck = deck_of(&[4, 5]);
    let mut hand: HashMap<u8, Card> = HashMap::new();
    for v in 10..15u8 {
        hand.insert(v, plain('s'));
    }
    fill_player_deck(&mut deck, &mut hand);
    assert_eq!(hand.len(), 7);
    assert!(deck.cards.is_empty());

    let mut deck = deck_of(&[1, 2, 3]);
    let mut hand: HashMap<u8, Card> = HashMap::new();
    hand.insert(10, plain('s'));
    hand.insert(11, plain('s'));
    fill_player_deck(&mut deck, &mut hand);
    assert_eq!(hand.len(), 5);
    assert!(deck.cards.is_empty());
}

#[test]
fn refill_removes_cards_the_hand_already_held() {
    // a card that is both in the hand and in the deck leaves the deck
    let mut deck = deck_of(&[1, 2]);
    let mut hand: HashMap<u8, Card> = HashMap::new();
    hand.insert(1, plain('x'));
    fill_player_deck(&mut deck, &mut hand);
    assert!(deck.cards.is_empty());
    assert_eq!(hand.len(), 2);
    assert_eq!(hand[&1], trump('c'));
}

#[test]
fn refill_conserves_cards() {
    let values: Vec<u8> = (1..=12).collect();
    let mut deck = deck_of(&values);
    let mut hand: HashMap<u8, Card> = HashMap::new();
    hand.insert(20, plain('d'));
    let mut before: Vec<u8> = deck.cards.keys().chain(hand.keys()).copied().collect();
    before.sort();
    fill_player_deck(&mut deck, &mut hand);
    let mut after: Vec<u8> = deck.cards.keys().chain(hand.keys()).copied().collect();
    after.sort();
    assert_eq!(before, after);
    assert_eq!(hand.len(), 7);
    assert_eq!(deck.cards.len(), 6);
}

#[test]
fn shuffled_deck_is_full() {
    let shuffled = gen_rand_deck(vec![0; 24]);
    let deck = filled_card_deck(&shuffled, count_div(24), shuffled[0]);
    assert_eq!(deck.cards.len(), 24);
    for v in 1..=24u8 {
        assert!(deck.cards.contains_key(&v));
    }
    let trumps = deck.cards.values().filter(|c| c.trump).count();
    assert_eq!(trumps, 6);
}

#[test]
fn refill_of_a_full_hand_draws_nothing() {
    let mut deck = deck_of(&[1, 2, 3]);
    let mut hand: HashMap<u8, Card> = HashMap::new();
    for v in 20..27u8 {
        hand.insert(v, plain('h'));
    }
    fill_player_deck(&mut deck, &mut hand);
    assert_eq!(hand.len(), 7);
    assert_eq!(deck.cards.len(), 3);
}
