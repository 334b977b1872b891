use std::collections::HashMap;
use vstd::prelude::*;

use crate::walk::lemma_walked_prefix;

use crate::card::{suit_index, Card};
use crate::deck::PlayerData;
use crate::shuffle::random_index;

verus! {

broadcast use lemma_walked_prefix;

/// A player's number at the table.
pub type Id = u8;

/// Some card in `values` is of the suit with index `suit`.
pub open spec fn holds_suit(values: Set<u8>, div_from_volume: u8, suit: int) -> bool {
    exists|k: u8| #[trigger] values.contains(k) && suit_index(k, div_from_volume) == suit
}

/// Two different cards in `values` are of the suit with index `suit`.
pub open spec fn holds_suit_twice(values: Set<u8>, div_from_volume: u8, suit: int) -> bool {
    exists|k1: u8, k2: u8|
        #![trigger values.contains(k1), values.contains(k2)]
        values.contains(k1) && values.contains(k2) && k1 != k2 && suit_index(k1, div_from_volume) == suit
            && suit_index(k2, div_from_volume) == suit
}

/// Two different cards in `values` are of the same suit.
pub open spec fn has_duplicate_suit(values: Set<u8>, div_from_volume: u8) -> bool {
    exists|k1: u8, k2: u8|
        #![trigger values.contains(k1), values.contains(k2)]
        values.contains(k1) && values.contains(k2) && k1 != k2 && suit_index(k1, div_from_volume)
            == suit_index(k2, div_from_volume)
}

/// Every card value of `values` counts in a suit whose index is below `div_from_volume`.
pub open spec fn suits_below_div(values: Set<u8>, div_from_volume: u8) -> bool {
    forall|k: u8| #[trigger] values.contains(k) ==> 1 <= k && 0 < div_from_volume && suit_index(k, div_from_volume) < div_from_volume
}

/// Whether the hand holds two cards of the same suit.
pub fn check_duplicate_cards(player_cards: &HashMap<u8, Card>, div_from_volume: u8) -> (duplicate: bool)
    requires
        suits_below_div(player_cards@.dom(), div_from_volume),
    ensures
        duplicate == has_duplicate_suit(player_cards@.dom(), div_from_volume),
{
    let mut check_duplicate_bool = false;
    let mut check_duplicate_vec: Vec<usize> = Vec::new();
    let mut n: u8 = 0;
    while n < div_from_volume
        invariant
            n <= div_from_volume,
            check_duplicate_vec@.len() == n,
            forall|g: int| 0 <= g < n ==> check_duplicate_vec@[g] == 0,
        decreases div_from_volume - n,
    {
        check_duplicate_vec.push(0);
        n = n + 1;
    }
    let num_cards = player_cards.len();
    let ghost mut seen: Set<u8> = Set::empty();
    for card_value in it: player_cards.keys()
        invariant
            suits_below_div(player_cards@.dom(), div_from_volume),
            check_duplicate_vec@.len() == div_from_volume,
            it.seq().len() == num_cards,
            it.seq().no_duplicates(),
            seen == it.seq().take(it.index()).unref().to_set(),
            it.index() == it.seq().len() ==> seen == player_cards@.dom(),
            it.seq().unref().to_set() == player_cards@.dom(),
            forall|g: int| 0 <= g < div_from_volume ==> #[trigger] check_duplicate_vec@[g] <= it.index(),
            forall|g: int| 0 <= g < div_from_volume ==>
                (#[trigger] check_duplicate_vec@[g] == 0 <==> !holds_suit(seen, div_from_volume, g)),
            forall|g: int| 0 <= g < div_from_volume ==>
                (#[trigger] check_duplicate_vec@[g] >= 2 <==> holds_suit_twice(seen, div_from_volume, g)),
    {
        let ghost k = *card_value;
        let ghost old_vec = check_duplicate_vec@;
        assert(it.seq().unref()[it.index()] == k);
        assert(it.seq().unref().to_set().contains(k));
        assert(player_cards@.dom().contains(k));
        assert(!seen.contains(k)) by {
            if seen.contains(k) {
                assert(it.seq().take(it.index()).unref().contains(k));
                let j = choose|j: int| 0 <= j < it.index() && it.seq().take(it.index()).unref()[j] == k;
                assert(it.seq()[j] == it.seq()[it.index()]);
            }
        }
        let suit = ((*card_value - 1) / div_from_volume) as usize;
        let count = check_duplicate_vec[suit];
        check_duplicate_vec.set(suit, count + 1);
        proof {
            let new_seen = seen.insert(k);
            assert(new_seen == it.seq().take(it.index() + 1).unref().to_set());
            assert forall|g: int| 0 <= g < div_from_volume implies
                (#[trigger] check_duplicate_vec@[g] == 0 <==> !holds_suit(new_seen, div_from_volume, g)) by {
                assert(old_vec[g] == 0 <==> !holds_suit(seen, div_from_volume, g));
                if g == suit as int {
                    assert(new_seen.contains(k));
                } else {
                    assert(check_duplicate_vec@[g] == old_vec[g]);
                    if holds_suit(new_seen, div_from_volume, g) {
                        let w = choose|w: u8| #[trigger] new_seen.contains(w) && suit_index(w, div_from_volume) == g;
                        assert(seen.contains(w));
                    }
                    if holds_suit(seen, div_from_volume, g) {
                        let w = choose|w: u8| #[trigger] seen.contains(w) && suit_index(w, div_from_volume) == g;
                        assert(new_seen.contains(w));
                    }
                }
            }
            assert forall|g: int| 0 <= g < div_from_volume implies
                (#[trigger] check_duplicate_vec@[g] >= 2 <==> holds_suit_twice(new_seen, div_from_volume, g)) by {
                assert(old_vec[g] >= 2 <==> holds_suit_twice(seen, div_from_volume, g));
                assert(old_vec[g] == 0 <==> !holds_suit(seen, div_from_volume, g));
                if g == suit as int {
                    if count >= 2 {
                        let (w1, w2) = choose|w1: u8, w2: u8| seen.contains(w1) && seen.contains(w2) && w1 != w2 && suit_index(w1, div_from_volume) == g && suit_index(w2, div_from_volume) == g;
                        assert(new_seen.contains(w1) && new_seen.contains(w2));
                    } else if count == 1 {
                        let w = choose|w: u8| #[trigger] seen.contains(w) && suit_index(w, div_from_volume) == g;
                        assert(new_seen.contains(w) && new_seen.contains(k) && w != k);
                    } else {
                        if holds_suit_twice(new_seen, div_from_volume, g) {
                            let (w1, w2) = choose|w1: u8, w2: u8| new_seen.contains(w1) && new_seen.contains(w2) && w1 != w2 && suit_index(w1, div_from_volume) == g && suit_index(w2, div_from_volume) == g;
                            if w1 != k {
                                assert(seen.contains(w1));
                            } else {
                                assert(seen.contains(w2));
                            }
                        }
                    }
                } else {
                    assert(check_duplicate_vec@[g] == old_vec[g]);
                    if holds_suit_twice(new_seen, div_from_volume, g) {
                        let (w1, w2) = choose|w1: u8, w2: u8| new_seen.contains(w1) && new_seen.contains(w2) && w1 != w2 && suit_index(w1, div_from_volume) == g && suit_index(w2, div_from_volume) == g;
                        assert(seen.contains(w1) && seen.contains(w2));
                    }
                    if holds_suit_twice(seen, div_from_volume, g) {
                        let (w1, w2) = choose|w1: u8, w2: u8| seen.contains(w1) && seen.contains(w2) && w1 != w2 && suit_index(w1, div_from_volume) == g && suit_index(w2, div_from_volume) == g;
                        assert(new_seen.contains(w1) && new_seen.contains(w2));
                    }
                }
            }
            seen = new_seen;
        }
    }
    let mut g: usize = 0;
    while g < check_duplicate_vec.len()
        invariant
            g <= check_duplicate_vec@.len(),
            check_duplicate_bool == exists|h: int| 0 <= h < g && #[trigger] check_duplicate_vec@[h] > 1,
        decreases check_duplicate_vec@.len() - g,
    {
        if check_duplicate_vec[g] > 1 {
            check_duplicate_bool = true;
        }
        g = g + 1;
    }
    proof {
        if check_duplicate_bool {
            let h = choose|h: int| 0 <= h < g && #[trigger] check_duplicate_vec@[h] > 1;
            assert(holds_suit_twice(seen, div_from_volume, h));
        }
        if has_duplicate_suit(seen, div_from_volume) {
            let (w1, w2) = choose|w1: u8, w2: u8| seen.contains(w1) && seen.contains(w2) && w1 != w2 && suit_index(w1, div_from_volume) == suit_index(w2, div_from_volume);
            let h = suit_index(w1, div_from_volume);
            assert(holds_suit_twice(seen, div_from_volume, h));
            assert(check_duplicate_vec@[h] > 1);
        }
    }
    check_duplicate_bool
}

/// The value of the card that comes last when the map is walked.
fn last_card_value(cards: &HashMap<u8, Card>) -> (last: u8)
    requires
        !cards@.dom().is_empty(),
    ensures
        cards@.dom().contains(last),
{
    let mut last: u8 = 0;
    let mut any = false;
    for card_value in it: cards.keys()
        invariant
            it.seq().unref().to_set() == cards@.dom(),
            it.seq().len() == cards@.dom().len(),
            cards@.dom().finite(),
            !cards@.dom().is_empty(),
            any <==> it.index() > 0,
            any ==> cards@.dom().contains(last),
    {
        assert(it.seq().unref()[it.index()] == *card_value);
        assert(it.seq().unref().to_set().contains(*card_value));
        last = *card_value;
        any = true;
    }
    proof {
        if !any {
            assert(cards@.dom().len() > 0);
        }
    }
    last
}

/// The cards of `cards` whose suit has the index `suit`.
pub open spec fn cards_of_suit(cards: Map<u8, Card>, div_from_volume: u8, suit: int) -> Map<u8, Card> {
    cards.restrict(Set::new(|k: u8| suit_index(k, div_from_volume) == suit))
}

/// All cards of `values` are of the suit with index `suit`.
pub open spec fn single_suit(values: Set<u8>, div_from_volume: u8, suit: int) -> bool {
    forall|k: u8| #[trigger] values.contains(k) ==> suit_index(k, div_from_volume) == suit
}

/// Every card value of `values` is at least one.
pub open spec fn positive_values(values: Set<u8>) -> bool {
    forall|k: u8| #[trigger] values.contains(k) ==> 1 <= k
}

/// Adds to the playable cards those cards of the hand that are of the suit
/// of the card that comes last in the playable cards; when nothing is
/// playable yet, the whole hand becomes playable.
///
/// The suit is read again for each card of the hand, and the card that
/// comes last follows the order in which the map is walked: when the
/// playable cards are of one suit, exactly the hand's cards of that suit are
/// added; otherwise every added card is of a suit that was playable before.
pub fn get_playable_cards_with_duplicate(
    player_cards: &mut HashMap<u8, Card>,
    playable_cards: &mut HashMap<u8, Card>,
    div_from_volume: u8,
)
    requires
        !old(playable_cards)@.dom().is_empty() && !old(player_cards)@.dom().is_empty() ==> {
            &&& 0 < div_from_volume
            &&& positive_values(old(player_cards)@.dom())
            &&& positive_values(old(playable_cards)@.dom())
        },
    ensures
        final(player_cards)@ == old(player_cards)@,
        old(playable_cards)@.dom().is_empty() ==> final(playable_cards)@ == old(player_cards)@,
        !old(playable_cards)@.dom().is_empty() ==> exists|added: Map<u8, Card>| {
            &&& #[trigger] added.submap_of(old(player_cards)@)
            &&& final(playable_cards)@ == old(playable_cards)@.union_prefer_right(added)
            &&& forall|k: u8| #[trigger] added.contains_key(k)
                ==> holds_suit(old(playable_cards)@.dom(), div_from_volume, suit_index(k, div_from_volume))
        },
        forall|suit: int|
            !old(playable_cards)@.dom().is_empty() && single_suit(old(playable_cards)@.dom(), div_from_volume, suit)
            ==> final(playable_cards)@ == old(playable_cards)@.union_prefer_right(
                cards_of_suit(old(player_cards)@, div_from_volume, suit)),
{
    if !playable_cards.is_empty() {
        let ghost start = playable_cards@;
        let ghost suit0 = suit_index(start.dom().choose(), div_from_volume);
        let ghost mut added: Map<u8, Card> = Map::empty();
        let ghost mut seen: Set<u8> = Set::empty();
        for card_value in it: player_cards.keys()
            invariant
                start == old(playable_cards)@,
                !start.dom().is_empty(),
                start.dom().contains(start.dom().choose()),
                suit0 == suit_index(start.dom().choose(), div_from_volume),
                !player_cards@.dom().is_empty() ==> {
                    &&& 0 < div_from_volume
                    &&& positive_values(player_cards@.dom())
                    &&& positive_values(start.dom())
                },
                it.seq().unref().to_set() == player_cards@.dom(),
                it.seq().no_duplicates(),
                seen == it.seq().take(it.index()).unref().to_set(),
                it.index() == it.seq().len() ==> seen == player_cards@.dom(),
                added.submap_of(player_cards@),
                added.dom().subset_of(seen),
                playable_cards@ == start.union_prefer_right(added),
                forall|k: u8| #[trigger] added.contains_key(k)
                    ==> holds_suit(start.dom(), div_from_volume, suit_index(k, div_from_volume)),
                single_suit(start.dom(), div_from_volume, suit0) ==>
                    added == cards_of_suit(player_cards@.restrict(seen), div_from_volume, suit0),
        {
            let ghost k = *card_value;
            assert(it.seq().unref()[it.index()] == k);
            assert(it.seq().unref().to_set().contains(k));
            assert(player_cards@.dom().contains(k));
            assert(!seen.contains(k)) by {
                if seen.contains(k) {
                    assert(it.seq().take(it.index()).unref().contains(k));
                    let j = choose|j: int| 0 <= j < it.index() && it.seq().take(it.index()).unref()[j] == k;
                    assert(it.seq()[j] == it.seq()[it.index()]);
                }
            }
            let last = last_card_value(playable_cards);
            assert(holds_suit(start.dom(), div_from_volume, suit_index(last, div_from_volume))) by {
                if !start.dom().contains(last) {
                    assert(added.contains_key(last));
                } else {
                    assert(start.dom().contains(last));
                }
            }
            assert(single_suit(start.dom(), div_from_volume, suit0) ==> suit_index(last, div_from_volume) == suit0) by {
                if single_suit(start.dom(), div_from_volume, suit0) {
                    let w = choose|w: u8| #[trigger] start.dom().contains(w) && suit_index(w, div_from_volume) == suit_index(last, div_from_volume);
                    assert(start.dom().contains(w));
                }
            }
            assert(1 <= last) by {
                if !start.dom().contains(last) {
                    assert(added.contains_key(last));
                    assert(player_cards@.dom().contains(last));
                }
            }
            if (*card_value - 1) / div_from_volume == (last - 1) / div_from_volume {
                let card_data = *player_cards.get(card_value).unwrap();
                playable_cards.insert(*card_value, card_data);
                proof {
                    added = added.insert(k, card_data);
                }
            }
            proof {
                seen = seen.insert(k);
                assert(seen == it.seq().take(it.index() + 1).unref().to_set());
                assert(playable_cards@ =~= start.union_prefer_right(added));
                if single_suit(start.dom(), div_from_volume, suit0) {
                    assert(added =~= cards_of_suit(player_cards@.restrict(seen), div_from_volume, suit0));
                }
            }
        }
        proof {
            assert(player_cards@.restrict(seen) =~= player_cards@);
            assert forall|suit: int| single_suit(start.dom(), div_from_volume, suit) implies suit == suit0 by {
                assert(start.dom().contains(start.dom().choose()));
            }
        }
    } else {
        let ghost start = playable_cards@;
        let ghost mut seen: Set<u8> = Set::empty();
        for card_value in it: player_cards.keys()
            invariant
                start == old(playable_cards)@,
                start.dom().is_empty(),
                it.seq().unref().to_set() == player_cards@.dom(),
                seen == it.seq().take(it.index()).unref().to_set(),
                it.index() == it.seq().len() ==> seen == player_cards@.dom(),
                playable_cards@ == player_cards@.restrict(seen),
        {
            let ghost k = *card_value;
            assert(it.seq().unref()[it.index()] == k);
            assert(it.seq().unref().to_set().contains(k));
            let card_data = *player_cards.get(card_value).unwrap();
            playable_cards.insert(*card_value, card_data);
            proof {
                seen = seen.insert(k);
                assert(seen == it.seq().take(it.index() + 1).unref().to_set());
                assert(playable_cards@ =~= player_cards@.restrict(seen));
            }
        }
        assert(playable_cards@ =~= player_cards@);
    }
}

/// Some card of `cards` is a trump.
pub open spec fn has_trump(cards: Map<u8, Card>) -> bool {
    exists|k: u8| #[trigger] cards.contains_key(k) && cards[k].trump
}

/// The value of the lowest trump of the hand, when the hand holds a trump.
pub(crate) fn lowest_trump(cards: &HashMap<u8, Card>) -> (low: Option<u8>)
    ensures
        low is None <==> !has_trump(cards@),
        low matches Some(v) ==> cards@.contains_key(v) && cards@[v].trump
            && forall|k: u8| #[trigger] cards@.contains_key(k) && cards@[k].trump ==> v <= k,
{
    let mut low: Option<u8> = None;
    let ghost mut seen: Set<u8> = Set::empty();
    for card_value in it: cards.keys()
        invariant
            it.seq().unref().to_set() == cards@.dom(),
            seen == it.seq().take(it.index()).unref().to_set(),
            it.index() == it.seq().len() ==> seen == cards@.dom(),
            low is None ==> forall|k: u8| #[trigger] seen.contains(k) ==> !cards@[k].trump,
            low matches Some(v) ==> cards@.contains_key(v) && cards@[v].trump
                && forall|k: u8| #[trigger] seen.contains(k) && cards@[k].trump ==> v <= k,
    {
        let ghost k = *card_value;
        assert(it.seq().unref()[it.index()] == k);
        assert(it.seq().unref().to_set().contains(k));
        let card = cards.get(card_value).unwrap();
        if card.trump {
            match low {
                None => {
                    low = Some(*card_value);
                },
                Some(v) => {
                    if *card_value < v {
                        low = Some(*card_value);
                    }
                },
            }
        }
        proof {
            seen = seen.insert(k);
            assert(seen == it.seq().take(it.index() + 1).unref().to_set());
        }
    }
    low
}

/// The highest seat number among the players.
pub(crate) fn highest_seat(players_data: &HashMap<Id, PlayerData>) -> (max: Id)
    requires
        !players_data@.dom().is_empty(),
    ensures
        players_data@.contains_key(max),
        forall|id: Id| #[trigger] players_data@.contains_key(id) ==> id <= max,
{
    let mut max: Id = 0;
    let mut any = false;
    let ghost mut seen: Set<u8> = Set::empty();
    for player_id in it: players_data.keys()
        invariant
            it.seq().unref().to_set() == players_data@.dom(),
            it.seq().len() == players_data@.dom().len(),
            players_data@.dom().finite(),
            !players_data@.dom().is_empty(),
            seen == it.seq().take(it.index()).unref().to_set(),
            it.index() == it.seq().len() ==> seen == players_data@.dom(),
            any <==> it.index() > 0,
            any ==> players_data@.contains_key(max),
            forall|id: Id| #[trigger] seen.contains(id) ==> id <= max,
    {
        let ghost k = *player_id;
        assert(it.seq().unref()[it.index()] == k);
        assert(it.seq().unref().to_set().contains(k));
        if !any || *player_id > max {
            max = *player_id;
        }
        any = true;
        proof {
            seen = seen.insert(k);
            assert(seen == it.seq().take(it.index() + 1).unref().to_set());
        }
    }
    proof {
        if !any {
            assert(players_data@.dom().len() > 0);
        }
    }
    max
}

/// The player `id` holds the lowest trump of all the hands.
pub open spec fn holds_lowest_trump(players: Map<Id, PlayerData>, id: Id) -> bool {
    exists|low: u8|
        #![trigger players[id].cards@.contains_key(low)]
        players[id].cards@.contains_key(low) && players[id].cards@[low].trump
            && forall|other: Id, k: u8|
            #![trigger players[other].cards@.contains_key(k)]
            players.contains_key(other) && players[other].cards@.contains_key(k) && players[other].cards@[k].trump
                ==> low <= k
}

/// The player who makes the first move: the holder of the lowest trump; when
/// nobody holds a trump, a seat drawn at random from 1 up to the highest seat.
pub fn who_is_first(players_data: HashMap<Id, PlayerData>) -> (first: Id)
    requires
        !players_data@.dom().is_empty(),
        (forall|id: Id| #[trigger] players_data@.contains_key(id) ==> !has_trump(players_data@[id].cards@))
            ==> exists|id: Id| #[trigger] players_data@.contains_key(id) && 1 <= id,
    ensures
        (exists|id: Id| #[trigger] players_data@.contains_key(id) && has_trump(players_data@[id].cards@))
            ==> players_data@.contains_key(first) && holds_lowest_trump(players_data@, first),
        (forall|id: Id| #[trigger] players_data@.contains_key(id) ==> !has_trump(players_data@[id].cards@))
            ==> 1 <= first && exists|id: Id| #[trigger] players_data@.contains_key(id) && first <= id,
{
    let mut lowest_id: Id = 0;
    let mut lowest_card: u8 = 0;
    let mut found = false;
    let ghost mut seen: Set<u8> = Set::empty();
    for player_id in it: players_data.keys()
        invariant
            it.seq().unref().to_set() == players_data@.dom(),
            seen == it.seq().take(it.index()).unref().to_set(),
            it.index() == it.seq().len() ==> seen == players_data@.dom(),
            found ==> {
                &&& players_data@.contains_key(lowest_id)
                &&& players_data@[lowest_id].cards@.contains_key(lowest_card)
                &&& players_data@[lowest_id].cards@[lowest_card].trump
                &&& forall|other: Id, k: u8|
                    #![trigger players_data@[other].cards@.contains_key(k)]
                    seen.contains(other) && players_data@[other].cards@.contains_key(k)
                        && players_data@[other].cards@[k].trump ==> lowest_card <= k
            },
            !found ==> forall|id: Id| #[trigger] seen.contains(id) ==> !has_trump(players_data@[id].cards@),
    {
        let ghost k = *player_id;
        assert(it.seq().unref()[it.index()] == k);
        assert(it.seq().unref().to_set().contains(k));
        let cards_data = players_data.get(player_id).unwrap();
        let ghost old_found = found;
        let ghost old_low = lowest_card;
        let low = lowest_trump(&cards_data.cards);
        match low {
            None => {},
            Some(card) => {
                if !found || card < lowest_card {
                    lowest_card = card;
                    lowest_id = *player_id;
                }
                found = true;
            },
        }
        proof {
            let old_seen = seen;
            seen = seen.insert(k);
            assert(seen == it.seq().take(it.index() + 1).unref().to_set());
            if found {
                assert forall|other: Id, c: u8|
                    #![trigger players_data@[other].cards@.contains_key(c)]
                    seen.contains(other) && players_data@[other].cards@.contains_key(c)
                        && players_data@[other].cards@[c].trump implies lowest_card <= c by {
                    if other != k {
                        assert(old_seen.contains(other));
                        if !old_found {
                            assert(!has_trump(players_data@[other].cards@));
                        } else {
                            assert(old_low <= c);
                        }
                    } else {
                        assert(players_data@[k].cards@ == cards_data.cards@);
                        if low is None {
                            assert(has_trump(players_data@[k].cards@));
                        }
                    }
                }
            }
        }
    }
    if found {
        proof {
            assert(holds_lowest_trump(players_data@, lowest_id));
        }
        lowest_id
    } else {
        let max_num_players = highest_seat(&players_data);
        proof {
            let w = choose|id: Id| #[trigger] players_data@.contains_key(id) && 1 <= id;
            assert(w <= max_num_players);
        }
        (random_index(max_num_players as usize) + 1) as u8
    }
}

} // verus!
