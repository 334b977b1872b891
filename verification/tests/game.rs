use std::collections::HashMap;

use durak::card::Card;
use durak::deck::{DeckCards, PlayerData};
use std::collections::HashSet;

use durak::game::{move_for, offers_transfer, pass_turn, replenish, GameData, Move, Passing, Seats};
use durak::table::{AttackerDeck, DefenderDeck};

fn cards(values: &[u8]) -> HashMap<u8, Card> {
    values.iter().map(|v| (*v, Card { suit: 'd', trump: false })).collect()
}

fn table(hands: &[&[u8]]) -> HashMap<u8, PlayerData> {
    let mut players = HashMap::new();
    for (i, h) in hands.iter().enumerate() {
        players.insert(i as u8 + 1, PlayerData { cards: cards(h), bot: false });
    }
    players
}

fn seats(role: u8, id: u8, attacker: u8, defender: u8) -> Seats {
    Seats { whose_turn: (role, id), attacker, defender, win: false, found: false }
}

fn go(p: Passing) -> Seats {
    match p {
        Passing::Go(s) => s,
        Passing::Stalled => panic!("stalled"),
        Passing::Broken => panic!("broken"),
    }
}

#[test]
fn attack_passes_to_next_seat() {
    let players = table(&[&[1], &[2], &[3]]);
    let s = go(pass_turn(seats(1, 3, 3, 0), &players, 3, Some(true), Some(false), Some(false), Some(false)));
    assert_eq!(s.whose_turn, (2, 1));
    assert_eq!(s.defender, 1);
    assert!(!s.win);
}

#[test]
fn attack_against_empty_hand_stalls() {
    let players = table(&[&[1], &[], &[3]]);
    let p = pass_turn(seats(1, 1, 1, 0), &players, 3, Some(true), Some(false), Some(false), Some(false));
    assert!(matches!(p, Passing::Stalled));
}

#[test]
fn attack_at_missing_seat_is_broken() {
    let players = table(&[&[1], &[2]]);
    let p = pass_turn(seats(1, 2, 2, 0), &players, 3, Some(true), Some(false), Some(false), Some(false));
    assert!(matches!(p, Passing::Broken));
}

#[test]
fn single_seat_attack_is_broken() {
    // at a table of one seat the seat after seat 1 is seat 0
    let players = table(&[&[1]]);
    let p = pass_turn(seats(1, 1, 1, 0), &players, 1, Some(true), Some(false), Some(false), Some(false));
    assert!(matches!(p, Passing::Broken));
}

#[test]
fn thrower_found_two_seats_on() {
    let players = table(&[&[1], &[2], &[], &[4]]);
    let s = go(pass_turn(seats(1, 1, 1, 2), &players, 4, Some(false), Some(false), Some(false), None));
    assert_eq!(s.whose_turn, (3, 4));
}

#[test]
fn thrower_search_stalls_without_cards() {
    let players = table(&[&[], &[], &[]]);
    let p = pass_turn(seats(1, 1, 1, 2), &players, 3, Some(false), Some(false), Some(false), None);
    assert!(matches!(p, Passing::Stalled));
}

#[test]
fn beaten_attack_passes_to_seat_before() {
    let players = table(&[&[1], &[2], &[3]]);
    let s = go(pass_turn(seats(2, 1, 3, 1), &players, 3, Some(true), Some(false), Some(false), Some(true)));
    assert_eq!(s.whose_turn, (1, 3));
    let s = go(pass_turn(seats(2, 2, 1, 2), &players, 3, Some(true), Some(false), Some(false), Some(true)));
    assert_eq!(s.whose_turn, (1, 1));
}

#[test]
fn transferred_attack_passes_defence_on() {
    let players = table(&[&[1], &[2], &[3]]);
    let s = go(pass_turn(seats(2, 2, 1, 2), &players, 3, Some(true), Some(false), Some(true), None));
    assert_eq!(s.whose_turn, (2, 3));
    assert_eq!(s.attacker, 2);
    assert_eq!(s.defender, 3);
}

#[test]
fn taken_attack_passes_to_seat_after() {
    let players = table(&[&[1], &[2], &[3]]);
    let s = go(pass_turn(seats(2, 3, 2, 3), &players, 3, Some(true), Some(false), Some(false), Some(false)));
    assert_eq!(s.whose_turn, (1, 1));
}

#[test]
fn thrower_who_threw_passes_to_defender() {
    let players = table(&[&[1], &[2], &[3]]);
    let s = go(pass_turn(seats(3, 3, 1, 2), &players, 3, Some(true), Some(true), Some(false), None));
    assert_eq!(s.whose_turn, (2, 2));
}

#[test]
fn thrower_who_did_not_throw_passes_on() {
    let players = table(&[&[1], &[2], &[3]]);
    let s = go(pass_turn(seats(3, 3, 1, 2), &players, 3, Some(true), Some(false), Some(false), None));
    assert_eq!(s.whose_turn, (4, 1));
}

fn game(deck: &[u8], attacker_hand: &[u8]) -> GameData {
    GameData {
        who_attacker: 1,
        who_defender: 2,
        attacker_deck: AttackerDeck { attacking_cards: HashMap::new() },
        defender_deck: DefenderDeck {
            pairs_beaten_cards: HashMap::new(),
            defending_cards: HashMap::new(),
            how_much_cards_defender_have: 0,
        },
        deck_of_cards: DeckCards { cards: cards(deck) },
        players_data: table(&[attacker_hand, &[9]]),
    }
}

#[test]
fn replenish_after_defence() {
    let mut g = game(&[20, 21, 22], &[1, 2]);
    assert!(replenish(&mut g, Some(false), Some(true)));
    assert!(g.deck_of_cards.cards.is_empty());
    assert_eq!(g.players_data[&1].cards, cards(&[1, 2, 20, 21, 22]));
    assert_eq!(g.players_data[&2].cards, cards(&[9]));
}

#[test]
fn no_replenish_before_any_move() {
    let mut g = game(&[20], &[1]);
    assert!(replenish(&mut g, Some(false), None));
    assert_eq!(g.deck_of_cards.cards.len(), 1);
    assert_eq!(g.players_data[&1].cards, cards(&[1]));
}

#[test]
fn replenish_refuses_overfull_hand() {
    let mut g = game(&[20], &[1, 2, 3, 4, 5, 6, 7, 8]);
    assert!(!replenish(&mut g, Some(true), None));
    assert_eq!(g.deck_of_cards.cards.len(), 1);
    assert_eq!(g.players_data[&1].cards.len(), 8);
}

#[test]
fn moves_by_role() {
    assert!(matches!(move_for(1, Some(false)), Move::Attack));
    assert!(matches!(move_for(1, Some(true)), Move::ThrowIn));
    assert!(matches!(move_for(1, None), Move::ThrowIn));
    assert!(matches!(move_for(2, Some(false)), Move::Defend));
    assert!(matches!(move_for(3, Some(true)), Move::ThrowIn));
    assert!(matches!(move_for(8, Some(true)), Move::ThrowIn));
    assert!(matches!(move_for(9, Some(true)), Move::NoSuchRole));
    assert!(matches!(move_for(0, Some(false)), Move::NoSuchRole));
}

#[test]
fn transfer_offered_only_before_any_beat() {
    let mut defence = DefenderDeck {
        pairs_beaten_cards: HashMap::new(),
        defending_cards: HashMap::new(),
        how_much_cards_defender_have: 6,
    };
    let some: HashSet<u8> = [19u8].into_iter().collect();
    assert!(offers_transfer(&defence, &some));
    assert!(!offers_transfer(&defence, &HashSet::new()));
    defence.defending_cards = cards(&[20]);
    assert!(!offers_transfer(&defence, &some));
}

#[test]
fn thrown_card_passes_to_defender() {
    let players = table(&[&[1], &[2], &[3], &[4]]);
    let s = go(pass_turn(seats(4, 4, 1, 2), &players, 4, Some(true), Some(true), Some(false), None));
    assert_eq!(s.whose_turn, (2, 2));
}

#[test]
fn first_thrower_from_seat_nine_on() {
    // the attacker at seat 7 of 9: the search for a thrower starts at seat 0
    let mut players = table(&[&[1], &[2], &[3], &[4], &[5], &[6], &[7], &[8], &[9]]);
    let p = pass_turn(seats(1, 7, 7, 8), &players, 9, Some(false), Some(false), Some(false), None);
    assert!(matches!(p, Passing::Broken));
    players.insert(0, PlayerData { cards: cards(&[10]), bot: false });
    let s = go(pass_turn(seats(1, 7, 7, 8), &players, 9, Some(false), Some(false), Some(false), None));
    assert_eq!(s.whose_turn, (3, 0));
}
