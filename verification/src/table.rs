use std::collections::{HashMap, HashSet};
use vstd::prelude::*;

use crate::walk::lemma_walked_prefix;

use crate::card::Card;
use crate::deck::PlayerData;

verus! {

broadcast use lemma_walked_prefix;

/// The cards played by the attacking side, by value.
#[derive(Debug, Clone)]
pub struct AttackerDeck {
    pub attacking_cards: HashMap<u8, Card>,
}

/// The defending side of the table: which attacking card each defending
/// card beat, the defending cards by value, and how many cards the defender
/// held when the attack began.
#[derive(Debug, Clone)]
pub struct DefenderDeck {
    pub pairs_beaten_cards: HashMap<u8, u8>,
    pub defending_cards: HashMap<u8, Card>,
    pub how_much_cards_defender_have: u8,
}

/// Adds every card of `source` to `target`, replacing a card of the same value.
fn insert_all(target: &mut HashMap<u8, Card>, source: &HashMap<u8, Card>)
    ensures
        final(target)@ == old(target)@.union_prefer_right(source@),
{
    let ghost mut seen: Set<u8> = Set::empty();
    for card_volume in it: source.keys()
        invariant
            it.seq().unref().to_set() == source@.dom(),
            seen == it.seq().take(it.index()).unref().to_set(),
            it.index() == it.seq().len() ==> seen == source@.dom(),
            target@ == old(target)@.union_prefer_right(source@.restrict(seen)),
    {
        let ghost k = *card_volume;
        assert(it.seq().unref()[it.index()] == k);
        assert(it.seq().unref().to_set().contains(k));
        let card_data = *source.get(card_volume).unwrap();
        target.insert(*card_volume, card_data);
        proof {
            seen = seen.insert(k);
            assert(seen == it.seq().take(it.index() + 1).unref().to_set());
                        assert(target@ =~= old(target)@.union_prefer_right(source@.restrict(seen)));
        }
    }
    assert(source@.restrict(seen) =~= source@);
}

/// Lays the chosen cards on the table and empties the choice. Each chosen
/// card must already lie among the attacking cards: laying a card of a value
/// that is not yet on the table is refused (the call does not return).
pub fn play_card(attacker_deck: &mut AttackerDeck, chosen_cards: &mut HashMap<u8, Card>)
    requires
        old(chosen_cards)@.dom().subset_of(old(attacker_deck).attacking_cards@.dom()),
    ensures
        final(attacker_deck).attacking_cards@ == old(attacker_deck).attacking_cards@.union_prefer_right(
            old(chosen_cards)@,
        ),
        final(chosen_cards)@ == Map::<u8, Card>::empty(),
{
    let ghost mut seen: Set<u8> = Set::empty();
    for card_volume in it: chosen_cards.keys()
        invariant
            it.seq().unref().to_set() == chosen_cards@.dom(),
            chosen_cards@ == old(chosen_cards)@,
            seen == it.seq().take(it.index()).unref().to_set(),
            it.index() == it.seq().len() ==> seen == chosen_cards@.dom(),
            old(attacker_deck).attacking_cards@.dom().subset_of(attacker_deck.attacking_cards@.dom()),
            chosen_cards@.dom().subset_of(old(attacker_deck).attacking_cards@.dom()),
            attacker_deck.attacking_cards@ == old(attacker_deck).attacking_cards@.union_prefer_right(
                chosen_cards@.restrict(seen),
            ),
    {
        let ghost k = *card_volume;
        assert(it.seq().unref()[it.index()] == k);
        assert(it.seq().unref().to_set().contains(k));
        let card_data = *chosen_cards.get(card_volume).unwrap();
        attacker_deck.attacking_cards.insert(*card_volume, card_data).unwrap();
        proof {
            seen = seen.insert(k);
            assert(seen == it.seq().take(it.index() + 1).unref().to_set());
            assert(attacker_deck.attacking_cards@ =~= old(attacker_deck).attacking_cards@.union_prefer_right(
                chosen_cards@.restrict(seen)));
        }
    }
    assert(chosen_cards@.restrict(seen) =~= chosen_cards@);
    chosen_cards.clear();
}

/// The cards of the defender's hand, of the attack and of the defence, as one map.
pub open spec fn cards_in_play(hand: Map<u8, Card>, attacking: Map<u8, Card>, defending: Map<u8, Card>) -> Map<u8, Card> {
    hand.union_prefer_right(attacking).union_prefer_right(defending)
}

/// No card lies in two of the three places: hand, attack, defence.
pub open spec fn apart(hand: Map<u8, Card>, attacking: Map<u8, Card>, defending: Map<u8, Card>) -> bool {
    &&& hand.dom().disjoint(attacking.dom())
    &&& hand.dom().disjoint(defending.dom())
    &&& attacking.dom().disjoint(defending.dom())
}

/// Going from the first three places to the second three creates, loses and
/// duplicates no card, when no card lay in two places to begin with: each
/// card keeps its value and still lies in exactly one place.
pub open spec fn conserves(
    hand: Map<u8, Card>,
    attacking: Map<u8, Card>,
    defending: Map<u8, Card>,
    new_hand: Map<u8, Card>,
    new_attacking: Map<u8, Card>,
    new_defending: Map<u8, Card>,
) -> bool {
    apart(hand, attacking, defending) ==> {
        &&& apart(new_hand, new_attacking, new_defending)
        &&& cards_in_play(new_hand, new_attacking, new_defending) == cards_in_play(hand, attacking, defending)
    }
}

/// The defender takes every card on the table: the attacking and the
/// defending cards go to the hand, and the table is cleared.
pub fn take_all_card(
    attacker_deck: &mut AttackerDeck,
    defending_deck: &mut DefenderDeck,
    players_data: &mut PlayerData,
)
    ensures
        final(players_data).cards@ == old(players_data).cards@.union_prefer_right(
            old(attacker_deck).attacking_cards@,
        ).union_prefer_right(old(defending_deck).defending_cards@),
        final(players_data).bot == old(players_data).bot,
        final(attacker_deck).attacking_cards@ == Map::<u8, Card>::empty(),
        final(defending_deck).defending_cards@ == Map::<u8, Card>::empty(),
        final(defending_deck).pairs_beaten_cards@ == Map::<u8, u8>::empty(),
        final(defending_deck).how_much_cards_defender_have == old(defending_deck).how_much_cards_defender_have,
        conserves(
            old(players_data).cards@,
            old(attacker_deck).attacking_cards@,
            old(defending_deck).defending_cards@,
            final(players_data).cards@,
            final(attacker_deck).attacking_cards@,
            final(defending_deck).defending_cards@,
        ),
{
    insert_all(&mut players_data.cards, &attacker_deck.attacking_cards);
    insert_all(&mut players_data.cards, &defending_deck.defending_cards);
    attacker_deck.attacking_cards.clear();
    defending_deck.defending_cards.clear();
    defending_deck.pairs_beaten_cards.clear();
    assert(cards_in_play(players_data.cards@, attacker_deck.attacking_cards@, defending_deck.defending_cards@)
        =~= players_data.cards@);
}

/// The ranks (values modulo `div_from_volume`) of the card values in `values`.
pub open spec fn ranks_of(values: Set<u8>, div_from_volume: u8) -> Set<u8> {
    Set::new(|r: u8| exists|k: u8| #[trigger] values.contains(k) && k % div_from_volume == r)
}

/// The cards of `cards` whose rank lies in `ranks`.
pub open spec fn cards_of_ranks(cards: Map<u8, Card>, ranks: Set<u8>, div_from_volume: u8) -> Map<u8, Card> {
    cards.restrict(Set::new(|k: u8| ranks.contains(k % div_from_volume)))
}

/// Adds to `ranks` the rank of every card of `cards`.
fn collect_ranks(ranks: &mut HashSet<u8>, cards: &HashMap<u8, Card>, div_from_volume: u8)
    requires
        0 < div_from_volume || cards@.dom().is_empty(),
    ensures
        final(ranks)@ == old(ranks)@.union(ranks_of(cards@.dom(), div_from_volume)),
{
    let ghost mut seen: Set<u8> = Set::empty();
    for card_volume in it: cards.keys()
        invariant
            0 < div_from_volume || cards@.dom().is_empty(),
            it.seq().unref().to_set() == cards@.dom(),
            seen == it.seq().take(it.index()).unref().to_set(),
            it.index() == it.seq().len() ==> seen == cards@.dom(),
            ranks@ == old(ranks)@.union(ranks_of(seen, div_from_volume)),
    {
        let ghost k = *card_volume;
        assert(it.seq().unref()[it.index()] == k);
        assert(it.seq().unref().to_set().contains(k));
        ranks.insert(*card_volume % div_from_volume);
        proof {
            let new_seen = seen.insert(k);
            assert(new_seen == it.seq().take(it.index() + 1).unref().to_set());
            assert forall|r: u8| #[trigger] ranks@.contains(r) <==> old(ranks)@.union(ranks_of(new_seen, div_from_volume)).contains(r) by {
                if ranks_of(new_seen, div_from_volume).contains(r) && r != k % div_from_volume {
                    let w = choose|w: u8| #[trigger] new_seen.contains(w) && w % div_from_volume == r;
                    assert(seen.contains(w));
                }
                if ranks_of(seen, div_from_volume).contains(r) {
                    let w = choose|w: u8| #[trigger] seen.contains(w) && w % div_from_volume == r;
                    assert(new_seen.contains(w));
                }
                if r == k % div_from_volume {
                    assert(new_seen.contains(k));
                }
            }
            assert(ranks@ =~= old(ranks)@.union(ranks_of(new_seen, div_from_volume)));
            seen = new_seen;
        }
    }
}

/// The cards of the hand that may be thrown in: those whose rank is the rank
/// of some card on the table, attacking or defending.
pub fn throwable_cards(
    attacker_deck: AttackerDeck,
    defending_deck: DefenderDeck,
    players_data: PlayerData,
    div_from_volume: u8,
) -> (throwable: HashMap<u8, Card>)
    requires
        0 < div_from_volume || (attacker_deck.attacking_cards@.dom().is_empty()
            && defending_deck.defending_cards@.dom().is_empty() && players_data.cards@.dom().is_empty()),
    ensures
        throwable@ == cards_of_ranks(
            players_data.cards@,
            ranks_of(
                attacker_deck.attacking_cards@.dom().union(defending_deck.defending_cards@.dom()),
                div_from_volume,
            ),
            div_from_volume,
        ),
{
    let mut allowed_volume: HashSet<u8> = HashSet::new();
    collect_ranks(&mut allowed_volume, &attacker_deck.attacking_cards, div_from_volume);
    collect_ranks(&mut allowed_volume, &defending_deck.defending_cards, div_from_volume);
    let ghost table = attacker_deck.attacking_cards@.dom().union(defending_deck.defending_cards@.dom());
    proof {
        assert forall|r: u8| #[trigger] allowed_volume@.contains(r) <==> ranks_of(table, div_from_volume).contains(r) by {
            if ranks_of(table, div_from_volume).contains(r) {
                let w = choose|w: u8| #[trigger] table.contains(w) && w % div_from_volume == r;
                if attacker_deck.attacking_cards@.dom().contains(w) {
                    assert(ranks_of(attacker_deck.attacking_cards@.dom(), div_from_volume).contains(r));
                } else {
                    assert(ranks_of(defending_deck.defending_cards@.dom(), div_from_volume).contains(r));
                }
            }
            if ranks_of(attacker_deck.attacking_cards@.dom(), div_from_volume).contains(r) {
                let w = choose|w: u8| #[trigger] attacker_deck.attacking_cards@.dom().contains(w) && w % div_from_volume == r;
                assert(table.contains(w));
            }
            if ranks_of(defending_deck.defending_cards@.dom(), div_from_volume).contains(r) {
                let w = choose|w: u8| #[trigger] defending_deck.defending_cards@.dom().contains(w) && w % div_from_volume == r;
                assert(table.contains(w));
            }
        }
        assert(allowed_volume@ =~= ranks_of(table, div_from_volume));
    }
    let mut throwable: HashMap<u8, Card> = HashMap::new();
    let ghost mut seen: Set<u8> = Set::empty();
    for card_volume in it: players_data.cards.keys()
        invariant
            0 < div_from_volume || players_data.cards@.dom().is_empty(),
            allowed_volume@ == ranks_of(table, div_from_volume),
            it.seq().unref().to_set() == players_data.cards@.dom(),
            seen == it.seq().take(it.index()).unref().to_set(),
            it.index() == it.seq().len() ==> seen == players_data.cards@.dom(),
            throwable@ == cards_of_ranks(players_data.cards@.restrict(seen), allowed_volume@, div_from_volume),
    {
        let ghost k = *card_volume;
        assert(it.seq().unref()[it.index()] == k);
        assert(it.seq().unref().to_set().contains(k));
        if allowed_volume.contains(&(*card_volume % div_from_volume)) {
            let card_data = *players_data.cards.get(card_volume).unwrap();
            throwable.insert(*card_volume, card_data);
        }
        proof {
            seen = seen.insert(k);
            assert(seen == it.seq().take(it.index() + 1).unref().to_set());
            assert(throwable@ =~= cards_of_ranks(players_data.cards@.restrict(seen), allowed_volume@, div_from_volume));
        }
    }
    assert(players_data.cards@.restrict(seen) =~= players_data.cards@);
    throwable
}

/// The values of the cards of `cards` whose rank is `rank`.
pub open spec fn values_of_rank(cards: Map<u8, Card>, div_from_volume: u8, rank: u8) -> Set<u8> {
    Set::new(|k: u8| cards.contains_key(k) && k % div_from_volume == rank)
}

/// Every card value of `values` has the rank `rank`.
pub open spec fn single_rank(values: Set<u8>, div_from_volume: u8, rank: u8) -> bool {
    forall|k: u8| #[trigger] values.contains(k) ==> k % div_from_volume == rank
}

/// Two card values of `values` have different ranks, neither of them 0.
pub open spec fn two_nonzero_ranks(values: Set<u8>, div_from_volume: u8) -> bool {
    exists|k1: u8, k2: u8|
        #![trigger values.contains(k1), values.contains(k2)]
        values.contains(k1) && values.contains(k2) && k1 % div_from_volume != 0 && k2 % div_from_volume != 0
            && k1 % div_from_volume != k2 % div_from_volume
}

/// The cards of the hand with which the defender may pass the attack on: when
/// fewer than four cards attack and all of them have one rank, the hand's
/// cards of that rank.
///
/// The attacking cards are compared in the order in which their map is
/// walked, and a card of rank 0 seen before the first other rank does not
/// count: with attacking ranks 0 and one other rank `r`, the result is either
/// empty or the hand's cards of rank `r`, after that order.
pub fn get_transferrable_cards(
    players_cards: HashMap<u8, Card>,
    attacker_cards: HashMap<u8, Card>,
    div_from_volume: u8,
) -> (allowed: HashSet<u8>)
    requires
        0 < div_from_volume || attacker_cards@.dom().is_empty() || attacker_cards@.len() >= 4,
    ensures
        attacker_cards@.len() >= 4 || attacker_cards@.dom().is_empty() ==> allowed@ == Set::<u8>::empty(),
        forall|rank: u8|
            attacker_cards@.len() < 4 && !attacker_cards@.dom().is_empty()
                && single_rank(attacker_cards@.dom(), div_from_volume, rank)
                ==> allowed@ == values_of_rank(players_cards@, div_from_volume, rank),
        two_nonzero_ranks(attacker_cards@.dom(), div_from_volume) ==> allowed@ == Set::<u8>::empty(),
        allowed@ == Set::<u8>::empty() || exists|rank: u8|
            #[trigger] ranks_of(attacker_cards@.dom(), div_from_volume).contains(rank)
                && (rank == 0 ==> single_rank(attacker_cards@.dom(), div_from_volume, 0))
                && allowed@ == values_of_rank(players_cards@, div_from_volume, rank),
{
    let mut allowed_volume: HashSet<u8> = HashSet::new();
    if attacker_cards.len() < 4 {
        let mut check_volume: u8 = 0;
        let mut check_bool: bool = false;
        let mut stopped: bool = false;
        let ghost mut seen: Set<u8> = Set::empty();
        for attacker_card in it: attacker_cards.keys()
            invariant
                0 < div_from_volume || attacker_cards@.dom().is_empty(),
                it.seq().unref().to_set() == attacker_cards@.dom(),
                seen == it.seq().take(it.index()).unref().to_set(),
                it.index() == it.seq().len() ==> seen == attacker_cards@.dom(),
                !stopped ==> (check_bool <==> exists|k: u8| #[trigger] seen.contains(k)),
                !stopped && check_volume == 0 ==> single_rank(seen, div_from_volume, 0),
                !stopped && check_volume != 0 ==> {
                    &&& forall|k: u8| #[trigger] seen.contains(k) ==> k % div_from_volume == 0 || k % div_from_volume == check_volume
                    &&& ranks_of(seen, div_from_volume).contains(check_volume)
                },
                stopped ==> !check_bool,
                stopped ==> exists|k1: u8, k2: u8|
                    #![trigger seen.contains(k1), seen.contains(k2)]
                    seen.contains(k1) && seen.contains(k2) && k1 % div_from_volume != k2 % div_from_volume,
        {
            let ghost k = *attacker_card;
            assert(it.seq().unref()[it.index()] == k);
            assert(it.seq().unref().to_set().contains(k));
            let ghost old_seen = seen;
            let ghost old_volume = check_volume;
            let ghost old_stopped = stopped;
            if !stopped {
                if check_volume == 0 {
                    check_volume = *attacker_card % div_from_volume;
                    check_bool = true;
                } else if *attacker_card % div_from_volume != check_volume {
                    check_bool = false;
                    stopped = true;
                }
            }
            proof {
                seen = seen.insert(k);
                assert(seen == it.seq().take(it.index() + 1).unref().to_set());
                assert(seen.contains(k));
                if stopped {
                    if old_stopped {
                        let (w1, w2) = choose|w1: u8, w2: u8| #![trigger old_seen.contains(w1), old_seen.contains(w2)]
                            old_seen.contains(w1) && old_seen.contains(w2) && w1 % div_from_volume != w2 % div_from_volume;
                        assert(seen.contains(w1) && seen.contains(w2));
                    } else {
                        let w = choose|w: u8| #[trigger] old_seen.contains(w) && w % div_from_volume == old_volume;
                        assert(seen.contains(w) && seen.contains(k));
                    }
                }
                if !stopped && check_volume != 0 {
                    if old_volume == 0 {
                        assert(ranks_of(seen, div_from_volume).contains(check_volume)) by {
                            assert(seen.contains(k));
                        }
                    } else {
                        let w = choose|w: u8| #[trigger] old_seen.contains(w) && w % div_from_volume == check_volume;
                        assert(seen.contains(w));
                    }
                }
            }
        }
        if check_bool {
            let ghost mut seen_hand: Set<u8> = Set::empty();
            for card_value in it: players_cards.keys()
                invariant
                    0 < div_from_volume,
                    it.seq().unref().to_set() == players_cards@.dom(),
                    seen_hand == it.seq().take(it.index()).unref().to_set(),
                    it.index() == it.seq().len() ==> seen_hand == players_cards@.dom(),
                    allowed_volume@ == values_of_rank(players_cards@.restrict(seen_hand), div_from_volume, check_volume),
            {
                let ghost k = *card_value;
                assert(it.seq().unref()[it.index()] == k);
                assert(it.seq().unref().to_set().contains(k));
                if *card_value % div_from_volume == check_volume {
                    allowed_volume.insert(*card_value);
                }
                proof {
                    seen_hand = seen_hand.insert(k);
                    assert(seen_hand == it.seq().take(it.index() + 1).unref().to_set());
                    assert(allowed_volume@ =~= values_of_rank(players_cards@.restrict(seen_hand), div_from_volume, check_volume));
                }
            }
            proof {
                assert(players_cards@.restrict(seen_hand) =~= players_cards@);
            }
        }
        proof {
            let dom = attacker_cards@.dom();
            if check_bool {
                assert(!stopped);
                let w = choose|w: u8| #[trigger] seen.contains(w);
                if check_volume == 0 {
                    assert(ranks_of(dom, div_from_volume).contains(0)) by {
                        assert(dom.contains(w));
                    }
                }
                assert(ranks_of(dom, div_from_volume).contains(check_volume));
                if check_volume == 0 {
                    assert forall|k: u8| #[trigger] dom.contains(k) implies k % div_from_volume == 0 by {
                        assert(seen.contains(k));
                    }
                }
                assert forall|rank: u8| single_rank(dom, div_from_volume, rank) implies rank == check_volume by {
                    assert(dom.contains(w));
                    if check_volume != 0 {
                        let v = choose|v: u8| #[trigger] seen.contains(v) && v % div_from_volume == check_volume;
                        assert(dom.contains(v));
                    }
                }
                if two_nonzero_ranks(dom, div_from_volume) {
                    let (w1, w2) = choose|w1: u8, w2: u8| #![trigger dom.contains(w1), dom.contains(w2)]
                        dom.contains(w1) && dom.contains(w2) && w1 % div_from_volume != 0 && w2 % div_from_volume != 0
                            && w1 % div_from_volume != w2 % div_from_volume;
                    assert(seen.contains(w1) && seen.contains(w2));
                }
            } else {
                assert forall|rank: u8| !dom.is_empty() implies !single_rank(dom, div_from_volume, rank) by {
                    if !stopped {
                        let w = dom.choose();
                        assert(dom.contains(w));
                        assert(seen.contains(w));
                    } else {
                        let (w1, w2) = choose|w1: u8, w2: u8| #![trigger seen.contains(w1), seen.contains(w2)]
                            seen.contains(w1) && seen.contains(w2) && w1 % div_from_volume != w2 % div_from_volume;
                        assert(dom.contains(w1) && dom.contains(w2));
                    }
                }
            }
        }
    }
    allowed_volume
}

/// The set of values of the cards of `cards` that beat the card `attacked`.
pub open spec fn beating_cards(cards: Map<u8, Card>, attacked: u8, attacked_card: Card, div_from_volume: u8) -> Set<u8> {
    if attacked_card.trump {
        Set::new(|k: u8| cards.contains_key(k) && cards[k].trump && k > attacked)
    } else {
        Set::new(|k: u8| cards.contains_key(k) && ((k % div_from_volume == attacked % div_from_volume && k > attacked) || cards[k].trump))
    }
}

/// The cards of the hand that beat the attacking card: for a trump, the
/// higher trumps; otherwise the higher cards of the same rank and every trump.
pub fn beatable_cards(
    players_cards: HashMap<u8, Card>,
    attacker_card: (&u8, &Card),
    div_from_volume: u8,
) -> (allowed: HashSet<u8>)
    requires
        attacker_card.1.trump || 0 < div_from_volume || players_cards@.dom().is_empty(),
    ensures
        allowed@ == beating_cards(players_cards@, *attacker_card.0, *attacker_card.1, div_from_volume),
{
    let mut allowed_volume: HashSet<u8> = HashSet::new();
    let ghost mut seen: Set<u8> = Set::empty();
    for card_value in it: players_cards.keys()
        invariant
            attacker_card.1.trump || 0 < div_from_volume || players_cards@.dom().is_empty(),
            it.seq().unref().to_set() == players_cards@.dom(),
            seen == it.seq().take(it.index()).unref().to_set(),
            it.index() == it.seq().len() ==> seen == players_cards@.dom(),
            allowed_volume@ == beating_cards(players_cards@.restrict(seen), *attacker_card.0, *attacker_card.1, div_from_volume),
    {
        let ghost k = *card_value;
        assert(it.seq().unref()[it.index()] == k);
        assert(it.seq().unref().to_set().contains(k));
        let card_data = players_cards.get(card_value).unwrap();
        if attacker_card.1.trump {
            if card_data.trump && *card_value > *attacker_card.0 {
                allowed_volume.insert(*card_value);
            }
        } else if ((*card_value % div_from_volume == *attacker_card.0 % div_from_volume)
            && *card_value > *attacker_card.0) || card_data.trump {
            allowed_volume.insert(*card_value);
        }
        proof {
            seen = seen.insert(k);
            assert(seen == it.seq().take(it.index() + 1).unref().to_set());
            assert(allowed_volume@ =~= beating_cards(players_cards@.restrict(seen), *attacker_card.0, *attacker_card.1, div_from_volume));
        }
    }
    assert(players_cards@.restrict(seen) =~= players_cards@);
    allowed_volume
}

} // verus!
