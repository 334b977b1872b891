use std::collections::{HashMap, HashSet};
use vstd::prelude::*;

use crate::card::Card;
use crate::deck::PlayerData;
use crate::table::{apart, beatable_cards, beating_cards, cards_in_play, conserves, take_all_card, AttackerDeck, DefenderDeck};

verus! {

/// How many more cards may still be put against the defender: the cards the
/// defender held less the pairs already beaten (that count taken as a byte).
pub fn throwable_count(defending_deck: &DefenderDeck) -> (count: u8)
    requires
        (defending_deck.pairs_beaten_cards@.len() as u8) <= defending_deck.how_much_cards_defender_have,
    ensures
        count == defending_deck.how_much_cards_defender_have - (defending_deck.pairs_beaten_cards@.len() as u8),
{
    let beaten = #[verifier::truncate] (defending_deck.pairs_beaten_cards.len() as u8);
    defending_deck.how_much_cards_defender_have - beaten
}

/// Moves the card `chosen_card` from the playable cards to the chosen ones,
/// counting it against the cards that may still be played. Returns whether
/// the card was playable; otherwise nothing changes.
pub fn pick_card(
    chosen_cards: &mut HashMap<u8, Card>,
    playable_cards: &mut HashMap<u8, Card>,
    num_throwable_cards: &mut u8,
    chosen_card: u8,
) -> (picked: bool)
    requires
        old(playable_cards)@.contains_key(chosen_card) ==> *old(num_throwable_cards) > 0,
    ensures
        picked == old(playable_cards)@.contains_key(chosen_card),
        picked ==> {
            &&& final(chosen_cards)@ == old(chosen_cards)@.insert(chosen_card, old(playable_cards)@[chosen_card])
            &&& final(playable_cards)@ == old(playable_cards)@.remove(chosen_card)
            &&& *final(num_throwable_cards) == *old(num_throwable_cards) - 1
        },
        !picked ==> {
            &&& final(chosen_cards)@ == old(chosen_cards)@
            &&& final(playable_cards)@ == old(playable_cards)@
            &&& *final(num_throwable_cards) == *old(num_throwable_cards)
        },
{
    if playable_cards.contains_key(&chosen_card) {
        let card_data = *playable_cards.get(&chosen_card).unwrap();
        chosen_cards.insert(chosen_card, card_data);
        playable_cards.remove(&chosen_card);
        *num_throwable_cards = *num_throwable_cards - 1;
        true
    } else {
        false
    }
}

/// Adds the card `chosen_card` of the hand to the chosen cards; the hand keeps
/// it. Returns whether the hand holds that card; otherwise nothing changes.
pub fn pick_from_hand(
    chosen_cards: &mut HashMap<u8, Card>,
    player_cards: &HashMap<u8, Card>,
    chosen_card: u8,
) -> (picked: bool)
    ensures
        picked == player_cards@.contains_key(chosen_card),
        picked ==> final(chosen_cards)@ == old(chosen_cards)@.insert(chosen_card, player_cards@[chosen_card]),
        !picked ==> final(chosen_cards)@ == old(chosen_cards)@,
{
    if player_cards.contains_key(&chosen_card) {
        let card_data = *player_cards.get(&chosen_card).unwrap();
        chosen_cards.insert(chosen_card, card_data);
        true
    } else {
        false
    }
}

/// What the defender can do against the attacking card that was named.
pub enum Defence {
    /// No attacking card has that value.
    NotAttacking,
    /// Nothing in the hand beats the card: the defender took all the cards.
    TookAll,
    /// The values of the cards of the hand that beat it.
    Beatable(HashSet<u8>),
}

/// The defender (not a bot) names the attacking card `chosen_card` to beat.
/// When no card of the hand beats it, the defender takes every card on the table.
pub fn start_defence(
    attacker_deck: &mut AttackerDeck,
    defending_deck: &mut DefenderDeck,
    players_data: &mut PlayerData,
    chosen_card: u8,
    div_from_volume: u8,
) -> (defence: Defence)
    requires
        !old(players_data).bot,
        old(attacker_deck).attacking_cards@.contains_key(chosen_card)
            ==> old(attacker_deck).attacking_cards@[chosen_card].trump || 0 < div_from_volume
            || old(players_data).cards@.dom().is_empty(),
    ensures
        !old(attacker_deck).attacking_cards@.contains_key(chosen_card) ==> {
            &&& defence is NotAttacking
            &&& *final(attacker_deck) == *old(attacker_deck)
            &&& *final(defending_deck) == *old(defending_deck)
            &&& *final(players_data) == *old(players_data)
        },
        old(attacker_deck).attacking_cards@.contains_key(chosen_card) ==> {
            let beating = beating_cards(
                old(players_data).cards@,
                chosen_card,
                old(attacker_deck).attacking_cards@[chosen_card],
                div_from_volume,
            );
            if beating.is_empty() {
                &&& defence is TookAll
                &&& final(players_data).cards@ == old(players_data).cards@.union_prefer_right(
                    old(attacker_deck).attacking_cards@,
                ).union_prefer_right(old(defending_deck).defending_cards@)
                &&& final(players_data).bot == old(players_data).bot
                &&& final(attacker_deck).attacking_cards@ == Map::<u8, Card>::empty()
                &&& final(defending_deck).defending_cards@ == Map::<u8, Card>::empty()
                &&& final(defending_deck).pairs_beaten_cards@ == Map::<u8, u8>::empty()
                &&& final(defending_deck).how_much_cards_defender_have
                    == old(defending_deck).how_much_cards_defender_have
            } else {
                &&& defence matches Defence::Beatable(values) && values@ == beating
                &&& *final(attacker_deck) == *old(attacker_deck)
                &&& *final(defending_deck) == *old(defending_deck)
                &&& *final(players_data) == *old(players_data)
            }
        },
        conserves(
            old(players_data).cards@,
            old(attacker_deck).attacking_cards@,
            old(defending_deck).defending_cards@,
            final(players_data).cards@,
            final(attacker_deck).attacking_cards@,
            final(defending_deck).defending_cards@,
        ),
{
    if attacker_deck.attacking_cards.contains_key(&chosen_card) {
        let attacked = *attacker_deck.attacking_cards.get(&chosen_card).unwrap();
        let defenderable_card = beatable_cards(
            players_data.cards.clone(),
            (&chosen_card, &attacked),
            div_from_volume,
        );
        if defenderable_card.is_empty() {
            take_all_card(attacker_deck, defending_deck, players_data);
            Defence::TookAll
        } else {
            Defence::Beatable(defenderable_card)
        }
    } else {
        Defence::NotAttacking
    }
}

/// Beats the attacking card `chosen_card` with the card `chosen_def_card` of
/// the hand, when that card is among `defenderable_card`: the pair is
/// recorded and the card moves from the hand to the defending cards. Returns
/// whether it did; otherwise nothing changes.
pub fn beat_with(
    defending_deck: &mut DefenderDeck,
    players_data: &mut PlayerData,
    chosen_card: u8,
    chosen_def_card: u8,
    defenderable_card: &HashSet<u8>,
) -> (beaten: bool)
    requires
        !old(players_data).bot,
        defenderable_card@.contains(chosen_def_card) ==> old(players_data).cards@.contains_key(chosen_def_card),
    ensures
        beaten == defenderable_card@.contains(chosen_def_card),
        beaten ==> {
            &&& final(defending_deck).pairs_beaten_cards@
                == old(defending_deck).pairs_beaten_cards@.insert(chosen_card, chosen_def_card)
            &&& final(defending_deck).defending_cards@ == old(defending_deck).defending_cards@.insert(
                chosen_def_card,
                old(players_data).cards@[chosen_def_card],
            )
            &&& final(defending_deck).how_much_cards_defender_have
                == old(defending_deck).how_much_cards_defender_have
            &&& final(players_data).cards@ == old(players_data).cards@.remove(chosen_def_card)
            &&& final(players_data).bot == old(players_data).bot
        },
        !beaten ==> *final(defending_deck) == *old(defending_deck) && *final(players_data) == *old(players_data),
        forall|attacking: Map<u8, Card>|
            #[trigger] conserves(
                old(players_data).cards@,
                attacking,
                old(defending_deck).defending_cards@,
                final(players_data).cards@,
                attacking,
                final(defending_deck).defending_cards@,
            ),
{
    if defenderable_card.contains(&chosen_def_card) {
        defending_deck.pairs_beaten_cards.insert(chosen_card, chosen_def_card);
        let card_data = *players_data.cards.get(&chosen_def_card).unwrap();
        defending_deck.defending_cards.insert(chosen_def_card, card_data);
        players_data.cards.remove(&chosen_def_card);
        proof {
            let h = old(players_data).cards@;
            let d = old(defending_deck).defending_cards@;
            assert forall|attacking: Map<u8, Card>|
                #[trigger] conserves(h, attacking, d, players_data.cards@, attacking, defending_deck.defending_cards@) by {
                if apart(h, attacking, d) {
                    assert(h.dom().contains(chosen_def_card));
                    assert(cards_in_play(players_data.cards@, attacking, defending_deck.defending_cards@)
                        =~= cards_in_play(h, attacking, d));
                }
            }
        }
        true
    } else {
        false
    }
}

/// Every attacking card has been answered by a defending card.
pub fn all_beaten(attacker_deck: &AttackerDeck, defending_deck: &DefenderDeck) -> (done: bool)
    ensures
        done == (attacker_deck.attacking_cards@.len() == defending_deck.defending_cards@.len()),
{
    attacker_deck.attacking_cards.len() == defending_deck.defending_cards.len()
}

/// The defender (not a bot) passes the attack on with the card `chosen_card` of the hand: the card
/// moves from the hand to the attacking cards. Returns whether the hand holds
/// that card; otherwise nothing changes.
pub fn transfer_card(attacker_deck: &mut AttackerDeck, players_data: &mut PlayerData, chosen_card: u8) -> (moved: bool)
    requires
        !old(players_data).bot,
    ensures
        moved == old(players_data).cards@.contains_key(chosen_card),
        moved ==> {
            &&& final(attacker_deck).attacking_cards@ == old(attacker_deck).attacking_cards@.insert(
                chosen_card,
                old(players_data).cards@[chosen_card],
            )
            &&& final(players_data).cards@ == old(players_data).cards@.remove(chosen_card)
            &&& final(players_data).bot == old(players_data).bot
        },
        !moved ==> *final(attacker_deck) == *old(attacker_deck) && *final(players_data) == *old(players_data),
        forall|defending: Map<u8, Card>|
            #[trigger] conserves(
                old(players_data).cards@,
                old(attacker_deck).attacking_cards@,
                defending,
                final(players_data).cards@,
                final(attacker_deck).attacking_cards@,
                defending,
            ),
{
    if players_data.cards.contains_key(&chosen_card) {
        let card_data = *players_data.cards.get(&chosen_card).unwrap();
        attacker_deck.attacking_cards.insert(chosen_card, card_data);
        players_data.cards.remove(&chosen_card);
        proof {
            let h = old(players_data).cards@;
            let a = old(attacker_deck).attacking_cards@;
            assert forall|defending: Map<u8, Card>|
                #[trigger] conserves(h, a, defending, players_data.cards@, attacker_deck.attacking_cards@, defending) by {
                if apart(h, a, defending) {
                    assert(cards_in_play(players_data.cards@, attacker_deck.attacking_cards@, defending)
                        =~= cards_in_play(h, a, defending));
                }
            }
        }
        true
    } else {
        false
    }
}

} // verus!
