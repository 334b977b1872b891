use std::collections::HashMap;

use durak::card::Card;
use durak::deck::{DeckCards, PlayerData};
use durak::game::GameData;
use durak::setup::{deal_hand, new_deck, start_game};
use durak::table::{AttackerDeck, DefenderDeck};

fn cards(values: &[u8], trump: bool) -> HashMap<u8, Card> {
    values.iter().map(|v| (*v, Card { suit: 'c', trump })).collect()
}

fn game(players: HashMap<u8, PlayerData>) -> GameData {
    GameData {
        who_attacker: 0,
        who_defender: 0,
        attacker_deck: AttackerDeck { attacking_cards: HashMap::new() },
        defender_deck: DefenderDeck {
            pairs_beaten_cards: HashMap::new(),
            defending_cards: HashMap::new(),
            how_much_cards_defender_have: 0,
        },
        deck_of_cards: DeckCards { cards: HashMap::new() },
        players_data: players,
    }
}

#[test]
fn new_deck_holds_every_card_once() {
    let (deck, trump, div) = new_deck(36);
    assert_eq!(div, 9);
    assert_eq!(deck.cards.len(), 36);
    for v in 1..=36u8 {
        assert!(deck.cards.contains_key(&v));
    }
    assert!((1..=36).contains(&trump));
    assert!(deck.cards[&trump].trump);
    assert_eq!(deck.cards.values().filter(|c| c.trump).count(), 9);
}

#[test]
fn new_small_deck() {
    let (deck, trump, div) = new_deck(24);
    assert_eq!(div, 6);
    assert_eq!(deck.cards.len(), 24);
    assert!(deck.cards[&trump].trump);
    assert_eq!(deck.cards.values().filter(|c| c.trump).count(), 6);
}

#[test]
fn deal_takes_seven_cards_from_the_deck() {
    let (mut deck, _, _) = new_deck(36);
    let mut players = HashMap::new();
    assert!(deal_hand(&mut deck, &mut players, 1, false));
    assert!(deal_hand(&mut deck, &mut players, 2, true));
    assert_eq!(deck.cards.len(), 22);
    assert_eq!(players[&1].cards.len(), 7);
    assert_eq!(players[&2].cards.len(), 7);
    assert!(!players[&1].bot);
    assert!(players[&2].bot);
    for v in players[&1].cards.keys().chain(players[&2].cards.keys()) {
        assert!(!deck.cards.contains_key(v));
        assert!(!(players[&1].cards.contains_key(v) && players[&2].cards.contains_key(v)));
    }
}

#[test]
fn deal_from_a_short_deck_fails() {
    let mut deck = DeckCards { cards: cards(&[1, 2, 3, 4, 5, 6], false) };
    let mut players = HashMap::new();
    assert!(!deal_hand(&mut deck, &mut players, 1, false));
    assert_eq!(deck.cards.len(), 6);
    assert!(players.is_empty());
}

#[test]
fn lowest_trump_attacks_first() {
    let mut players = HashMap::new();
    let mut first = cards(&[2, 3], false);
    first.insert(30, Card { suit: 'c', trump: true });
    let mut second = cards(&[4], false);
    second.insert(28, Card { suit: 'c', trump: true });
    players.insert(1, PlayerData { cards: first, bot: false });
    players.insert(2, PlayerData { cards: second, bot: false });
    players.insert(3, PlayerData { cards: cards(&[5, 6, 7, 8], false), bot: true });
    let mut g = game(players);
    assert!(start_game(&mut g));
    assert_eq!(g.who_attacker, 2);
    assert_eq!(g.who_defender, 3);
    assert_eq!(g.defender_deck.how_much_cards_defender_have, 4);
}

#[test]
fn no_trump_draws_a_seat() {
    let mut players = HashMap::new();
    players.insert(1, PlayerData { cards: cards(&[2], false), bot: false });
    players.insert(2, PlayerData { cards: cards(&[3, 4], false), bot: false });
    players.insert(3, PlayerData { cards: cards(&[5], false), bot: false });
    let mut g = game(players);
    if start_game(&mut g) {
        assert!(g.who_attacker == 1 || g.who_attacker == 2);
        assert_eq!(g.who_defender, g.who_attacker + 1);
        assert_eq!(g.defender_deck.how_much_cards_defender_have, if g.who_attacker == 1 { 2 } else { 1 });
    } else {
        // seat 3 was drawn, and no seat 4 defends
        assert_eq!(g.who_attacker, 0);
        assert_eq!(g.who_defender, 0);
    }
}

#[test]
fn no_players_cannot_start() {
    let mut g = game(HashMap::new());
    assert!(!start_game(&mut g));
    assert_eq!(g.who_attacker, 0);
    assert_eq!(g.who_defender, 0);
}

#[test]
fn last_seat_attacker_has_no_defender() {
    let mut players = HashMap::new();
    players.insert(1, PlayerData { cards: cards(&[2], false), bot: false });
    players.insert(2, PlayerData { cards: cards(&[20], true), bot: false });
    let mut g = game(players);
    assert!(!start_game(&mut g));
    assert_eq!(g.who_attacker, 0);
    assert_eq!(g.defender_deck.how_much_cards_defender_have, 0);
}
