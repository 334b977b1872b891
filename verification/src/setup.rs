//! Setting a game up: the deck, the hands, and who attacks and defends first.

use std::collections::HashMap;
use vstd::prelude::*;

use crate::card::{card_data, count_div};
use crate::deck::{filled_card_deck, gen_deck_in_hand, remove_cards, DeckCards, PlayerData};
use crate::game::GameData;
use crate::hand::{has_trump, highest_seat, holds_lowest_trump, lowest_trump, who_is_first, Id};
use crate::laws::lemma_fresh_shuffle_is_permutation;
use crate::shuffle::gen_rand_deck;

verus! {

proof fn lemma_empty_slots_count(s: Seq<u8>)
    requires
        forall|i: int| 0 <= i < s.len() ==> #[trigger] s[i] == 0,
    ensures
        s.to_multiset().count(0) == s.len(),
    decreases s.len(),
{
    broadcast use vstd::seq_lib::group_to_multiset_ensures;
    broadcast use vstd::multiset::group_multiset_axioms;
    if s.len() > 0 {
        let t = s.drop_last();
        lemma_empty_slots_count(t);
        assert(s =~= t.push(0));
    } else {
        assert(s =~= Seq::<u8>::empty());
    }
}

/// A full deck of `vec_len` cards, shuffled, with its trump card and the
/// size of a suit: the first card of the shuffle is the trump card and goes
/// to the bottom of the deck. The deck holds one card for each value
/// `1..=vec_len`, with its suit and trump flag.
pub fn new_deck(vec_len: usize) -> (res: (DeckCards, u8, u8))
    requires
        vec_len == 24 || vec_len == 36 || vec_len == 52,
    ensures
        4 * res.2 == vec_len,
        1 <= res.1 <= vec_len,
        res.0.cards@.dom() == Set::new(|v: u8| 1 <= v <= vec_len),
        forall|v: u8| #[trigger] res.0.cards@.contains_key(v) ==> res.0.cards@[v] == card_data(v, res.2, res.1),
{
    let mut rand_vec_cards: Vec<u8> = Vec::new();
    while rand_vec_cards.len() < vec_len
        invariant
            rand_vec_cards@.len() <= vec_len,
            vec_len <= 52,
            forall|i: int| 0 <= i < rand_vec_cards@.len() ==> #[trigger] rand_vec_cards@[i] == 0,
        decreases vec_len - rand_vec_cards@.len(),
    {
        rand_vec_cards.push(0);
    }
    let ghost slots = rand_vec_cards@;
    proof {
        broadcast use vstd::seq_lib::group_to_multiset_ensures;
        lemma_empty_slots_count(slots);
    }
    let shuffled = gen_rand_deck(rand_vec_cards);
    proof {
        lemma_fresh_shuffle_is_permutation(slots, shuffled@);
    }
    let trump_volume = shuffled[0];
    let mut rotated: Vec<u8> = Vec::new();
    let mut i: usize = 1;
    while i < shuffled.len()
        invariant
            1 <= i <= shuffled@.len(),
            shuffled@.len() == vec_len,
            rotated@ == shuffled@.subrange(1, i as int),
        decreases shuffled@.len() - i,
    {
        rotated.push(shuffled[i]);
        i = i + 1;
    }
    rotated.push(trump_volume);
    let div_from_volume = count_div(vec_len);
    proof {
        broadcast use vstd::seq_lib::group_to_multiset_ensures;
        assert(rotated@ =~= shuffled@.subrange(1, vec_len as int).push(shuffled@[0]));
        assert forall|v: u8| rotated@.contains(v) <==> shuffled@.contains(v) by {
            if shuffled@.contains(v) {
                let j = choose|j: int| 0 <= j < shuffled@.len() && shuffled@[j] == v;
                if j == 0 {
                    assert(rotated@[rotated@.len() - 1] == v);
                } else {
                    assert(rotated@[j - 1] == v);
                }
            }
            if rotated@.contains(v) {
                let j = choose|j: int| 0 <= j < rotated@.len() && rotated@[j] == v;
                if j == rotated@.len() - 1 {
                    assert(shuffled@[0] == v);
                } else {
                    assert(shuffled@[j + 1] == v);
                }
            }
        }
        assert forall|v: u8| rotated@.contains(v) <==> 1 <= v <= vec_len by {
            assert(shuffled@.contains(v) <==> shuffled@.to_multiset().count(v) > 0);
        }
        assert(shuffled@.contains(trump_volume)) by {
            assert(shuffled@[0] == trump_volume);
        }
        assert forall|j: int| 0 <= j < rotated@.len() implies crate::card::valid_card_value(
            #[trigger] rotated@[j], div_from_volume) by {
            let v = rotated@[j];
            assert(rotated@.contains(v));
            assert((v - 1) / (div_from_volume as int) < 4) by (nonlinear_arith)
                requires
                    1 <= v <= 4 * div_from_volume,
                    0 < div_from_volume,
            ;
        }
    }
    let deck_of_cards = filled_card_deck(&rotated, div_from_volume, trump_volume);
    proof {
        assert(deck_of_cards.cards@.dom() =~= Set::new(|v: u8| 1 <= v <= vec_len));
    }
    (deck_of_cards, trump_volume, div_from_volume)
}

/// Deals a hand of seven cards from the deck to the player at seat `seat`
/// (a bot when `bot`), and removes the hand from the deck. Returns false,
/// changing nothing, when the deck holds fewer than seven cards.
pub fn deal_hand(
    deck_of_cards: &mut DeckCards,
    players_data: &mut HashMap<Id, PlayerData>,
    seat: Id,
    bot: bool,
) -> (ok: bool)
    ensures
        ok == (old(deck_of_cards).cards@.len() >= 7),
        !ok ==> final(deck_of_cards).cards@ == old(deck_of_cards).cards@ && final(players_data)@ == old(players_data)@,
        ok ==> {
            let hand = final(players_data)@[seat].cards@;
            &&& final(players_data)@.dom() == old(players_data)@.dom().insert(seat)
            &&& forall|id: Id| #[trigger] final(players_data)@.contains_key(id) && id != seat
                ==> final(players_data)@[id] == old(players_data)@[id]
            &&& final(players_data)@[seat].bot == bot
            &&& hand.submap_of(old(deck_of_cards).cards@)
            &&& hand.len() == 7
            &&& final(deck_of_cards).cards@ == old(deck_of_cards).cards@.remove_keys(hand.dom())
        },
{
    if deck_of_cards.cards.len() < 7 {
        return false;
    }
    let new_player_data = gen_deck_in_hand(deck_of_cards, bot);
    remove_cards(&mut deck_of_cards.cards, &new_player_data.cards);
    players_data.insert(seat, new_player_data);
    true
}

/// Who attacks first and who defends, and how many cards the defender
/// holds: the holder of the lowest trump attacks (when nobody holds a trump,
/// a seat drawn from 1 up to the highest seat), and the next seat number
/// defends. Returns false, changing nothing, where the game cannot start:
/// there are no players, the only seat is 0 and holds no trump, the attacker
/// sits at seat 255, or the next seat holds no player.
pub fn start_game(game: &mut GameData) -> (ok: bool)
    ensures
        ({
            let players = old(game).players_data@;
            let someone_holds_trump = exists|id: Id| #[trigger] players.contains_key(id) && has_trump(players[id].cards@);
            let can_choose = !players.dom().is_empty()
                && (someone_holds_trump || exists|id: Id| #[trigger] players.contains_key(id) && 1 <= id);
            let first = final(game).who_attacker;
            &&& !can_choose ==> !ok
            &&& !ok ==> *final(game) == *old(game)
            &&& ok ==> {
                &&& can_choose
                &&& someone_holds_trump ==> players.contains_key(first) && holds_lowest_trump(players, first)
                &&& !someone_holds_trump ==> 1 <= first && exists|id: Id| #[trigger] players.contains_key(id) && first <= id
                &&& first < 255
                &&& final(game).who_defender == first + 1
                &&& players.contains_key(final(game).who_defender)
                &&& final(game).defender_deck.how_much_cards_defender_have
                    == (players[final(game).who_defender].cards@.len() as u8)
                &&& final(game).defender_deck.pairs_beaten_cards == old(game).defender_deck.pairs_beaten_cards
                &&& final(game).defender_deck.defending_cards == old(game).defender_deck.defending_cards
                &&& final(game).attacker_deck == old(game).attacker_deck
                &&& final(game).deck_of_cards == old(game).deck_of_cards
                &&& final(game).players_data == old(game).players_data
            }
        }),
{
    if game.players_data.is_empty() {
        return false;
    }
    let max = highest_seat(&game.players_data);
    if max == 0 {
        let only = game.players_data.get(&0).unwrap();
        if lowest_trump(&only.cards).is_none() {
            proof {
                let players = game.players_data@;
                assert forall|id: Id| #[trigger] players.contains_key(id) implies id == 0 by {}
            }
            return false;
        }
    }
    let players = game.players_data.clone();
    let first = who_is_first(players);
    if first == 255 {
        return false;
    }
    let defender = first + 1;
    if !game.players_data.contains_key(&defender) {
        return false;
    }
    let held = #[verifier::truncate] (game.players_data.get(&defender).unwrap().cards.len() as u8);
    game.who_attacker = first;
    game.who_defender = defender;
    game.defender_deck.how_much_cards_defender_have = held;
    true
}

} // verus!
