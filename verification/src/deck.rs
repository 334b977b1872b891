use std::collections::HashMap;
use vstd::prelude::*;

use crate::card::{card_data, filling_in_card_data, valid_card_value, Card};
use crate::walk::lemma_walked_prefix;

verus! {

broadcast use lemma_walked_prefix;

/// The cards that are still to be drawn, by value.
#[derive(Debug, Clone)]
pub struct DeckCards {
    pub cards: HashMap<u8, Card>,
}

/// A player's hand, by card value, and whether the player is a bot.
#[derive(Debug, Clone)]
pub struct PlayerData {
    pub cards: HashMap<u8, Card>,
    pub bot: bool,
}

/// The deck that holds one card for each value in `values`.
pub open spec fn deck_of(values: Seq<u8>, div_from_volume: u8, trump_volume: u8) -> Map<u8, Card> {
    Map::new(|v: u8| values.contains(v), |v: u8| card_data(v, div_from_volume, trump_volume))
}

/// Builds the deck from the shuffled card values.
pub fn filled_card_deck(rand_vec: &[u8], div_from_volume: u8, trump_volume: u8) -> (deck: DeckCards)
    requires
        forall|i: int| 0 <= i < rand_vec@.len() ==> valid_card_value(#[trigger] rand_vec@[i], div_from_volume),
        rand_vec@.len() > 0 ==> 1 <= trump_volume,
    ensures
        deck.cards@ == deck_of(rand_vec@, div_from_volume, trump_volume),
{
    let mut filled_card_deck = DeckCards { cards: HashMap::new() };
    for i in 0..rand_vec.len()
        invariant
            forall|j: int| 0 <= j < rand_vec@.len() ==> valid_card_value(#[trigger] rand_vec@[j], div_from_volume),
            rand_vec@.len() > 0 ==> 1 <= trump_volume,
            filled_card_deck.cards@ == deck_of(rand_vec@.take(i as int), div_from_volume, trump_volume),
    {
        let card = rand_vec[i];
        let data = filling_in_card_data(card, div_from_volume, trump_volume);
        filled_card_deck.cards.insert(card, data);
        assert(rand_vec@.take(i + 1) =~= rand_vec@.take(i as int).push(card));
        assert(filled_card_deck.cards@ =~= deck_of(rand_vec@.take(i + 1), div_from_volume, trump_volume)) by {
            broadcast use vstd::seq_lib::lemma_seq_contains_after_push;
        }
    }
    assert(rand_vec@.take(rand_vec@.len() as int) =~= rand_vec@);
    filled_card_deck
}

/// Removes from `card_deck` every card whose value is a key of `cards`.
pub fn remove_cards(card_deck: &mut HashMap<u8, Card>, cards: &HashMap<u8, Card>)
    ensures
        final(card_deck)@ == old(card_deck)@.remove_keys(cards@.dom()),
{
    for card_volume in it: cards.keys()
        invariant
            card_deck@ == old(card_deck)@.remove_keys(it.seq().take(it.index()).unref().to_set()),
            it.index() == it.seq().len() ==> card_deck@ == old(card_deck)@.remove_keys(cards@.dom()),
    {
        if card_deck.contains_key(card_volume) {
            card_deck.remove(card_volume);
        }
        assert(card_deck@ =~= old(card_deck)@.remove_keys(it.seq().take(it.index() + 1).unref().to_set()));
    }
}

/// Deals a hand of seven cards from the deck; the deck itself is left as it is.
/// Which seven cards are dealt follows the order in which the deck's map is walked.
pub fn gen_deck_in_hand(filled_card_deck: &DeckCards, bot: bool) -> (hand: PlayerData)
    requires
        filled_card_deck.cards@.len() >= 7,
    ensures
        hand.bot == bot,
        hand.cards@.submap_of(filled_card_deck.cards@),
        hand.cards@.len() == 7,
{
    let mut card_in_hand = PlayerData { cards: HashMap::new(), bot };
    let del_data: usize = if (filled_card_deck.cards.len() - 7) > 0 {
        7
    } else {
        filled_card_deck.cards.len()
    };
    let mut taken: usize = 0;
    for volume in it: filled_card_deck.cards.keys()
        invariant
            del_data == 7,
            filled_card_deck.cards@.len() >= 7,
            it.seq().len() == filled_card_deck.cards@.len(),
            taken as int == if it.index() < 7 { it.index() } else { 7 },
            card_in_hand.bot == bot,
            card_in_hand.cards@.submap_of(filled_card_deck.cards@),
            card_in_hand.cards@.len() == taken,
            forall|j: int| it.index() <= j < it.seq().len() ==> !card_in_hand.cards@.contains_key(*#[trigger] it.seq()[j]),
    {
        if taken < del_data {
            let card_info = *filled_card_deck.cards.get(volume).unwrap();
            card_in_hand.cards.insert(*volume, card_info);
            taken = taken + 1;
        }
    }
    card_in_hand
}

/// The number of cards a refill draws from a deck of `deck_len` cards into a
/// hand of `hand_len` cards (at most seven): the cards the hand misses to
/// hold seven, as far as the deck lasts.
pub open spec fn refill_count(deck_len: nat, hand_len: nat) -> nat {
    if deck_len < 7 - hand_len {
        deck_len
    } else {
        (7 - hand_len) as nat
    }
}

/// `new_hand` is `hand` after drawing the cards `taken` from `deck`.
pub open spec fn draws(
    deck: Map<u8, Card>,
    hand: Map<u8, Card>,
    taken: Map<u8, Card>,
    new_hand: Map<u8, Card>,
) -> bool {
    &&& taken.submap_of(deck)
    &&& taken.len() == refill_count(deck.len(), hand.len())
    &&& new_hand == hand.union_prefer_right(taken)
}

/// Replenishes a hand from the deck: the cards the hand misses to hold seven
/// are drawn from the deck, as far as it lasts, and every card that the hand
/// then holds leaves the deck. Which cards are drawn follows the order in
/// which the deck's map is walked.
pub fn fill_player_deck(deck_of_cards: &mut DeckCards, player_cards: &mut HashMap<u8, Card>)
    requires
        old(player_cards)@.len() <= 7,
    ensures
        exists|taken: Map<u8, Card>|
            #[trigger] draws(old(deck_of_cards).cards@, old(player_cards)@, taken, final(player_cards)@),
        final(deck_of_cards).cards@ == old(deck_of_cards).cards@.remove_keys(final(player_cards)@.dom()),
{
    let num_cards_to_fill: usize = if deck_of_cards.cards.len() < 7 - player_cards.len() {
        deck_of_cards.cards.len()
    } else {
        7 - player_cards.len()
    };
    let mut filled: usize = 0;
    let ghost mut taken: Map<u8, Card> = Map::empty();
    for card_value in it: deck_of_cards.cards.keys()
        invariant
            num_cards_to_fill as nat == refill_count(deck_of_cards.cards@.len(), old(player_cards)@.len()),
            num_cards_to_fill <= deck_of_cards.cards@.len(),
            deck_of_cards.cards@ == old(deck_of_cards).cards@,
            it.seq().len() == deck_of_cards.cards@.len(),
            filled as int == if it.index() < num_cards_to_fill { it.index() } else { num_cards_to_fill as int },
            taken.dom().finite(),
            taken.len() == filled,
            taken.submap_of(deck_of_cards.cards@),
            player_cards@ == old(player_cards)@.union_prefer_right(taken),
            forall|j: int| it.index() <= j < it.seq().len() ==> !taken.contains_key(*#[trigger] it.seq()[j]),
    {
        if filled < num_cards_to_fill {
            let card_data = *deck_of_cards.cards.get(card_value).unwrap();
            player_cards.insert(*card_value, card_data);
            proof {
                taken = taken.insert(*card_value, card_data);
            }
            filled = filled + 1;
            assert(player_cards@ =~= old(player_cards)@.union_prefer_right(taken));
        }
    }
    assert(draws(old(deck_of_cards).cards@, old(player_cards)@, taken, player_cards@));
    remove_cards(&mut deck_of_cards.cards, player_cards);
}

} // verus!
