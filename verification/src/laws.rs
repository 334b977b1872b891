//! Properties that hold across the operations of the game.

use vstd::prelude::*;

use crate::card::{card_data, Card};
use crate::deck::{deck_of, draws, refill_count, PlayerData};
use crate::game::{passing, seat_after, seat_before, seat_has_cards, thrower_search, Passing, Seats};
use crate::hand::{cards_of_suit, Id};
use crate::shuffle::{dealt_values, empty_slots};
use crate::table::{beating_cards, cards_of_ranks, conserves, ranks_of, values_of_rank};

verus! {

/// The trump card itself is a trump.
pub proof fn lemma_trump_card_is_trump(trump_volume: u8, div_from_volume: u8)
    ensures
        card_data(trump_volume, div_from_volume, trump_volume).trump,
{
}

/// Two cards of the same suit are both trumps or neither is.
pub proof fn lemma_same_suit_same_trump(v1: u8, v2: u8, div_from_volume: u8, trump_volume: u8)
    requires
        card_data(v1, div_from_volume, trump_volume).suit == card_data(v2, div_from_volume, trump_volume).suit,
        1 <= v1,
        1 <= v2,
        0 < div_from_volume,
        (v1 - 1) / (div_from_volume as int) < 4,
        (v2 - 1) / (div_from_volume as int) < 4,
    ensures
        card_data(v1, div_from_volume, trump_volume).trump == card_data(v2, div_from_volume, trump_volume).trump,
{
}

/// Shuffling a deck of `n` empty slots (`n` at most 255) places every card
/// value `1..=n` exactly once, and no other value.
pub proof fn lemma_fresh_shuffle_is_permutation(slots: Seq<u8>, shuffled: Seq<u8>)
    requires
        slots.len() <= 255,
        forall|i: int| 0 <= i < slots.len() ==> #[trigger] slots[i] == 0,
        shuffled.to_multiset().add(empty_slots(slots.len()).to_multiset())
            == slots.to_multiset().add(dealt_values(slots.len()).to_multiset()),
    ensures
        forall|v: u8| #[trigger] shuffled.to_multiset().count(v) == if 1 <= v <= slots.len() { 1nat } else { 0nat },
{
    broadcast use vstd::multiset::group_multiset_axioms;
    let n = slots.len();
    assert(slots =~= empty_slots(n));
    let z = empty_slots(n).to_multiset();
    assert(slots.to_multiset() == z);
    assert forall|v: u8| #[trigger] shuffled.to_multiset().count(v) == dealt_values(n).to_multiset().count(v) by {
        assert(shuffled.to_multiset().add(z).count(v) == z.add(dealt_values(n).to_multiset()).count(v));
    }
    assert(shuffled.to_multiset() =~= dealt_values(n).to_multiset());
    let d = dealt_values(n);
    assert forall|i: int| 0 <= i < n implies #[trigger] d[i] == (i + 1) as u8 by {
        assert(((i + 1) % 256) == i + 1);
    }
    assert(d.no_duplicates());
    d.lemma_multiset_has_no_duplicates();
    assert forall|v: u8| #[trigger] shuffled.to_multiset().count(v) == if 1 <= v <= n { 1nat } else { 0nat } by {
        broadcast use vstd::seq_lib::group_to_multiset_ensures;
        if 1 <= v <= n {
            assert(d[v - 1] == v);
            assert(d.contains(v));
        } else {
            assert(!d.contains(v));
        }
    }
}

/// The deck built from a shuffle of `n` empty slots holds a card for each
/// value `1..=n`, and no other card.
pub proof fn lemma_shuffled_deck_is_full(
    slots: Seq<u8>,
    shuffled: Seq<u8>,
    div_from_volume: u8,
    trump_volume: u8,
)
    requires
        slots.len() <= 255,
        forall|i: int| 0 <= i < slots.len() ==> #[trigger] slots[i] == 0,
        shuffled.to_multiset().add(empty_slots(slots.len()).to_multiset())
            == slots.to_multiset().add(dealt_values(slots.len()).to_multiset()),
    ensures
        deck_of(shuffled, div_from_volume, trump_volume).dom() == Set::new(|v: u8| 1 <= v <= slots.len()),
{
    broadcast use vstd::seq_lib::group_to_multiset_ensures;
    lemma_fresh_shuffle_is_permutation(slots, shuffled);
    assert forall|v: u8| #[trigger] shuffled.contains(v) <==> 1 <= v <= slots.len() by {
        assert(shuffled.contains(v) <==> shuffled.to_multiset().count(v) > 0);
    }
    assert(deck_of(shuffled, div_from_volume, trump_volume).dom() =~= Set::new(|v: u8| 1 <= v <= slots.len()));
}

/// Dealing a hand and then removing it from the deck loses no card and
/// copies none: the hand and what is left of the deck are disjoint, together
/// they are the deck, and the deck is seven cards shorter.
pub proof fn lemma_deal_conserves_cards(deck: Map<u8, Card>, hand: Map<u8, Card>)
    requires
        deck.dom().finite(),
        hand.submap_of(deck),
        hand.len() == 7,
    ensures
        deck.remove_keys(hand.dom()).dom().disjoint(hand.dom()),
        deck.remove_keys(hand.dom()).dom().union(hand.dom()) == deck.dom(),
        deck.remove_keys(hand.dom()).len() == deck.len() - 7,
{
    let rest = deck.remove_keys(hand.dom());
    assert(rest.dom() =~= deck.dom().difference(hand.dom()));
    assert(rest.dom().union(hand.dom()) =~= deck.dom());
    assert(hand.dom().subset_of(deck.dom()));
    assert(deck.dom().difference(hand.dom()).len() + hand.dom().len() == deck.dom().len()) by {
        vstd::set_lib::lemma_len_subset(hand.dom(), deck.dom());
        assert(deck.dom().difference(hand.dom()).union(hand.dom()) =~= deck.dom());
        vstd::set_lib::lemma_set_disjoint_lens(deck.dom().difference(hand.dom()), hand.dom());
    }
}

/// Replenishing a hand that shares no card with the deck loses no card and
/// copies none: afterwards hand and deck are still disjoint, together they
/// hold the same cards as before, and the hand grew by the cards drawn.
pub proof fn lemma_refill_conserves_cards(
    deck: Map<u8, Card>,
    hand: Map<u8, Card>,
    taken: Map<u8, Card>,
    new_hand: Map<u8, Card>,
)
    requires
        deck.dom().finite(),
        hand.dom().finite(),
        deck.dom().disjoint(hand.dom()),
        hand.len() <= 7,
        draws(deck, hand, taken, new_hand),
    ensures
        deck.remove_keys(new_hand.dom()).dom().disjoint(new_hand.dom()),
        deck.remove_keys(new_hand.dom()).dom().union(new_hand.dom()) == deck.dom().union(hand.dom()),
        new_hand.len() == hand.len() + refill_count(deck.len(), hand.len()),
        deck.remove_keys(new_hand.dom()).len() == deck.len() - refill_count(deck.len(), hand.len()),
{
    let rest = deck.remove_keys(new_hand.dom());
    assert(new_hand.dom() =~= hand.dom().union(taken.dom()));
    assert(rest.dom() =~= deck.dom().difference(taken.dom()));
    assert(rest.dom().union(new_hand.dom()) =~= deck.dom().union(hand.dom()));
    assert(taken.dom().subset_of(deck.dom()));
    vstd::set_lib::lemma_len_subset(taken.dom(), deck.dom());
    assert(hand.dom().disjoint(taken.dom()));
    vstd::set_lib::lemma_set_disjoint_lens(hand.dom(), taken.dom());
    assert(deck.dom().difference(taken.dom()).union(taken.dom()) =~= deck.dom());
    vstd::set_lib::lemma_set_disjoint_lens(deck.dom().difference(taken.dom()), taken.dom());
}

/// Taking the table loses no card: when hand, attacking and defending cards
/// are disjoint, the hand grows by exactly the cards that were on the table.
pub proof fn lemma_take_all_counts(hand: Map<u8, Card>, attacking: Map<u8, Card>, defending: Map<u8, Card>)
    requires
        hand.dom().finite(),
        attacking.dom().finite(),
        defending.dom().finite(),
        hand.dom().disjoint(attacking.dom()),
        hand.dom().disjoint(defending.dom()),
        attacking.dom().disjoint(defending.dom()),
    ensures
        hand.union_prefer_right(attacking).union_prefer_right(defending).len()
            == hand.len() + attacking.len() + defending.len(),
{
    let h2 = hand.union_prefer_right(attacking);
    assert(h2.dom() =~= hand.dom().union(attacking.dom()));
    vstd::set_lib::lemma_set_disjoint_lens(hand.dom(), attacking.dom());
    assert(h2.union_prefer_right(defending).dom() =~= h2.dom().union(defending.dom()));
    vstd::set_lib::lemma_set_disjoint_lens(h2.dom(), defending.dom());
}

/// Cards of the defender's hand, the attack and the defence at one moment.
pub type Places = (Map<u8, Card>, Map<u8, Card>, Map<u8, Card>);

/// The defender's dialog conserves cards: each of its steps
/// (`name_attacked_card`, `name_defending_card`, and below them
/// `start_defence`, `beat_with`, `take_all_card`, `transfer_card`) conserves
/// them, so a whole dialog, any run of such steps, creates, loses and
/// duplicates no card when no card lay in two places at its start.
pub proof fn lemma_dialog_conserves_cards(steps: Seq<Places>)
    requires
        steps.len() >= 1,
        forall|i: int| 0 <= i < steps.len() - 1 ==> #[trigger] conserves(
            steps[i].0, steps[i].1, steps[i].2, steps[i + 1].0, steps[i + 1].1, steps[i + 1].2),
    ensures
        ({
            let first = steps[0];
            let last = steps[steps.len() - 1];
            conserves(first.0, first.1, first.2, last.0, last.1, last.2)
        }),
    decreases steps.len(),
{
    if steps.len() > 1 {
        let shorter = steps.drop_last();
        assert forall|i: int| 0 <= i < shorter.len() - 1 implies #[trigger] conserves(
            shorter[i].0, shorter[i].1, shorter[i].2, shorter[i + 1].0, shorter[i + 1].1, shorter[i + 1].2) by {
            assert(conserves(steps[i].0, steps[i].1, steps[i].2, steps[i + 1].0, steps[i + 1].1, steps[i + 1].2));
        }
        lemma_dialog_conserves_cards(shorter);
        let i = steps.len() - 2;
        assert(conserves(steps[i].0, steps[i].1, steps[i].2, steps[i + 1].0, steps[i + 1].1, steps[i + 1].2));
    }
}

/// Only cards of the hand are offered to beat a card, to throw in, or to pass
/// the attack on.
pub proof fn lemma_offered_cards_in_hand(
    cards: Map<u8, Card>,
    attacked: u8,
    attacked_card: Card,
    ranks: Set<u8>,
    rank: u8,
    div_from_volume: u8,
)
    ensures
        beating_cards(cards, attacked, attacked_card, div_from_volume).subset_of(cards.dom()),
        cards_of_ranks(cards, ranks, div_from_volume).submap_of(cards),
        values_of_rank(cards, div_from_volume, rank).subset_of(cards.dom()),
        cards_of_suit(cards, div_from_volume, rank as int).submap_of(cards),
{
}

/// A trump can only be beaten by a higher trump.
pub proof fn lemma_trump_beaten_by_higher_trump(
    cards: Map<u8, Card>,
    attacked: u8,
    attacked_card: Card,
    div_from_volume: u8,
)
    requires
        attacked_card.trump,
    ensures
        forall|k: u8| #[trigger] beating_cards(cards, attacked, attacked_card, div_from_volume).contains(k)
            ==> cards[k].trump && k > attacked,
{
}

/// A trump beats every card that is not a trump.
pub proof fn lemma_trump_beats_plain(cards: Map<u8, Card>, attacked: u8, attacked_card: Card, div_from_volume: u8)
    requires
        !attacked_card.trump,
    ensures
        forall|k: u8| #[trigger] cards.contains_key(k) && cards[k].trump
            ==> beating_cards(cards, attacked, attacked_card, div_from_volume).contains(k),
{
}

/// A card that is not a trump is beaten by the higher cards of its own rank
/// and by the trumps, and by nothing else: every card offered is a card of
/// the hand that is a trump or has the attacked card's rank and a higher
/// value, and every higher card of the hand of that rank is offered.
pub proof fn lemma_plain_card_beaten_by_higher_same_rank(
    cards: Map<u8, Card>,
    attacked: u8,
    attacked_card: Card,
    div_from_volume: u8,
)
    requires
        !attacked_card.trump,
    ensures
        forall|k: u8| #[trigger] beating_cards(cards, attacked, attacked_card, div_from_volume).contains(k)
            ==> cards.contains_key(k) && (cards[k].trump
                || (k % div_from_volume == attacked % div_from_volume && k > attacked)),
        forall|k: u8| #[trigger] cards.contains_key(k) && k % div_from_volume == attacked % div_from_volume
            && k > attacked ==> beating_cards(cards, attacked, attacked_card, div_from_volume).contains(k),
{
}

/// A trump is beaten by exactly the higher trumps of the hand.
pub proof fn lemma_higher_trumps_beat_trump(
    cards: Map<u8, Card>,
    attacked: u8,
    attacked_card: Card,
    div_from_volume: u8,
)
    requires
        attacked_card.trump,
    ensures
        forall|k: u8| #[trigger] cards.contains_key(k) && cards[k].trump && k > attacked
            ==> beating_cards(cards, attacked, attacked_card, div_from_volume).contains(k),
        forall|k: u8| #[trigger] beating_cards(cards, attacked, attacked_card, div_from_volume).contains(k)
            ==> cards.contains_key(k),
{
}

/// The cards offered to pass an attack of rank `rank` on are exactly the
/// cards of the hand of that rank, trumps among them.
pub proof fn lemma_transfer_offers_every_card_of_the_rank(cards: Map<u8, Card>, div_from_volume: u8, rank: u8)
    ensures
        forall|k: u8| #[trigger] cards.contains_key(k) && k % div_from_volume == rank
            ==> values_of_rank(cards, div_from_volume, rank).contains(k),
        forall|k: u8| #[trigger] values_of_rank(cards, div_from_volume, rank).contains(k)
            ==> cards.contains_key(k) && k % div_from_volume == rank,
{
}

/// A card of the hand may be thrown in exactly when some card on the table
/// has its rank, whether or not it is a trump; it is thrown in as it is.
pub proof fn lemma_throwable_iff_rank_on_table(hand: Map<u8, Card>, table: Set<u8>, div_from_volume: u8)
    requires
        0 < div_from_volume,
    ensures
        forall|k: u8, w: u8| #[trigger] hand.contains_key(k) && #[trigger] table.contains(w)
            && k % div_from_volume == w % div_from_volume
            ==> cards_of_ranks(hand, ranks_of(table, div_from_volume), div_from_volume).contains_key(k),
        forall|k: u8| #[trigger] cards_of_ranks(hand, ranks_of(table, div_from_volume), div_from_volume).contains_key(k)
            ==> hand.contains_key(k) && cards_of_ranks(hand, ranks_of(table, div_from_volume), div_from_volume)[k]
                == hand[k] && exists|w: u8| #[trigger] table.contains(w) && k % div_from_volume == w % div_from_volume,
{
    let thrown = cards_of_ranks(hand, ranks_of(table, div_from_volume), div_from_volume);
    assert forall|k: u8, w: u8| #[trigger] hand.contains_key(k) && #[trigger] table.contains(w)
        && k % div_from_volume == w % div_from_volume implies thrown.contains_key(k) by {
        let r: u8 = k % div_from_volume;
        assert(table.contains(w) && w % div_from_volume == r);
        assert(ranks_of(table, div_from_volume).contains(r));
    }
    assert forall|k: u8| #[trigger] thrown.contains_key(k) implies hand.contains_key(k) && thrown[k] == hand[k]
        && exists|w: u8| #[trigger] table.contains(w) && k % div_from_volume == w % div_from_volume by {
        let r: u8 = k % div_from_volume;
        let keys = Set::new(|v: u8| ranks_of(table, div_from_volume).contains(v % div_from_volume));
        assert(thrown.dom() == hand.dom().intersect(keys));
        assert(keys.contains(k));
        assert(ranks_of(table, div_from_volume).contains(r));
        let w = choose|w: u8| #[trigger] table.contains(w) && w % div_from_volume == r;
        assert(table.contains(w) && k % div_from_volume == w % div_from_volume);
    }
}

/// At a table of two or more seats (fewer than 255), the seat after a seat
/// and the seat before it are other seats of the table.
pub proof fn lemma_neighbour_seats(id: u8, n: u8)
    requires
        2 <= n < 255,
        1 <= id <= n,
    ensures
        seat_after(id, n) matches Some(s) && 1 <= s <= n && s != id,
        seat_before(id, n) matches Some(s) && 1 <= s <= n && s != id,
        seat_after(id, n) == Some(if id < n { (id + 1) as u8 } else { 1u8 }),
        seat_before(id, n) == Some(if id > 1 { (id - 1) as u8 } else { n }),
{
    if id == n {
        assert((id + 1) % (n as int) == 1) by (nonlinear_arith)
            requires
                id == n,
                2 <= n,
        ;
    }
}

/// Going round a table of two or more seats (fewer than 255), the seat after
/// the seat before any seat is that seat.
pub proof fn lemma_seats_round_trip(id: u8, n: u8)
    requires
        2 <= n < 255,
        1 <= id <= n,
    ensures
        seat_before(id, n) matches Some(b) && seat_after(b, n) == Some(id),
{
    lemma_neighbour_seats(id, n);
    if id == 1 {
        assert((n + 1) % (n as int) == 1) by (nonlinear_arith)
            requires
                2 <= n,
        ;
    }
}

/// Every seat `1..=n` holds a player with cards.
pub open spec fn full_table(players: Map<Id, PlayerData>, n: u8) -> bool {
    forall|id: u8| 1 <= id <= n ==> #[trigger] players.contains_key(id) && seat_has_cards(players, id)
}

/// At a full table of two or more seats (fewer than 255), once the attacker
/// has attacked, the player in the next seat defends and moves next.
pub proof fn lemma_attack_passes_to_next_seat(
    s: Seats,
    players: Map<Id, PlayerData>,
    n: u8,
    throw_bool: Option<bool>,
    transfered_cards: Option<bool>,
    def_cards: Option<bool>,
)
    requires
        2 <= n < 255,
        1 <= s.whose_turn.1 <= n,
        s.whose_turn.0 == 1,
        !s.found,
        full_table(players, n),
    ensures
        seat_after(s.whose_turn.1, n) matches Some(d) && passing(
            s,
            players,
            n,
            Some(true),
            throw_bool,
            transfered_cards,
            def_cards,
        ) == Passing::Go(Seats { whose_turn: (2, d), defender: d, found: true, ..s }),
{
    lemma_neighbour_seats(s.whose_turn.1, n);
    let d = seat_after(s.whose_turn.1, n)->0;
    assert(players.contains_key(d) && seat_has_cards(players, d));
}

/// At a full table of two or more seats (fewer than 255), once the defender
/// has beaten the attack, the player in the seat before attacks next.
pub proof fn lemma_beaten_attack_passes_to_seat_before(
    s: Seats,
    players: Map<Id, PlayerData>,
    n: u8,
    attack_cards: Option<bool>,
    throw_bool: Option<bool>,
)
    requires
        2 <= n < 255,
        1 <= s.whose_turn.1 <= n,
        s.whose_turn.0 == 2,
        !s.found,
        full_table(players, n),
    ensures
        seat_before(s.whose_turn.1, n) matches Some(b) && passing(
            s,
            players,
            n,
            attack_cards,
            throw_bool,
            Some(false),
            Some(true),
        ) == Passing::Go(Seats { whose_turn: (1, b), found: true, ..s }),
{
    lemma_neighbour_seats(s.whose_turn.1, n);
    let b = seat_before(s.whose_turn.1, n)->0;
    assert(players.contains_key(b));
}

/// At a full table of two or more seats (fewer than 255), once the defender
/// has taken the cards (neither passed the attack on nor beaten it), the
/// player in the seat after the defender attacks next: seat `t + 1`, or seat
/// 1 after the last seat.
pub proof fn lemma_taken_attack_passes_to_seat_after(
    s: Seats,
    players: Map<Id, PlayerData>,
    n: u8,
    attack_cards: Option<bool>,
    throw_bool: Option<bool>,
    transfered_cards: Option<bool>,
    def_cards: Option<bool>,
)
    requires
        2 <= n < 255,
        1 <= s.whose_turn.1 <= n,
        s.whose_turn.0 == 2,
        !s.found,
        full_table(players, n),
        transfered_cards != Some(true),
        def_cards != Some(true),
    ensures
        passing(s, players, n, attack_cards, throw_bool, transfered_cards, def_cards) == Passing::Go(Seats {
            whose_turn: (1, if s.whose_turn.1 < n { (s.whose_turn.1 + 1) as u8 } else { 1u8 }),
            found: true,
            ..s
        }),
{
    lemma_neighbour_seats(s.whose_turn.1, n);
    let a = seat_after(s.whose_turn.1, n)->0;
    assert(players.contains_key(a));
}

/// At a full table of two or more seats (fewer than 255), when the defender
/// passes the attack on, the defender becomes the attacker and the player in
/// the next seat defends and moves next.
pub proof fn lemma_transfer_passes_defence_on(
    s: Seats,
    players: Map<Id, PlayerData>,
    n: u8,
    attack_cards: Option<bool>,
    throw_bool: Option<bool>,
    def_cards: Option<bool>,
)
    requires
        2 <= n < 255,
        1 <= s.whose_turn.1 <= n,
        s.whose_turn.0 == 2,
        !s.found,
        full_table(players, n),
    ensures
        seat_after(s.whose_turn.1, n) matches Some(d) && passing(
            s,
            players,
            n,
            attack_cards,
            throw_bool,
            Some(true),
            def_cards,
        ) == Passing::Go(Seats { whose_turn: (2, d), attacker: s.whose_turn.1, defender: d, found: true, ..s }),
{
    lemma_neighbour_seats(s.whose_turn.1, n);
    let d = seat_after(s.whose_turn.1, n)->0;
    assert(players.contains_key(d) && seat_has_cards(players, d));
}

/// A thrower who threw a card in passes the move to the defender.
pub proof fn lemma_thrown_card_passes_to_defender(
    s: Seats,
    players: Map<Id, PlayerData>,
    n: u8,
    attack_cards: Option<bool>,
    transfered_cards: Option<bool>,
    def_cards: Option<bool>,
)
    requires
        s.whose_turn.0 >= 3,
    ensures
        passing(s, players, n, attack_cards, Some(true), transfered_cards, def_cards)
            == Passing::Go(Seats { whose_turn: (2, s.defender), ..s }),
{
}

/// At a full table of two or more seats (fewer than 255), a thrower who threw
/// nothing passes the move on to the next seat, as the next thrower.
pub proof fn lemma_unthrown_passes_to_next_thrower(
    s: Seats,
    players: Map<Id, PlayerData>,
    n: u8,
    attack_cards: Option<bool>,
    throw_bool: Option<bool>,
    transfered_cards: Option<bool>,
    def_cards: Option<bool>,
)
    requires
        2 <= n < 255,
        1 <= s.whose_turn.1 <= n,
        3 <= s.whose_turn.0 < 255,
        !s.found,
        throw_bool != Some(true),
        full_table(players, n),
    ensures
        seat_after(s.whose_turn.1, n) matches Some(a) && passing(
            s,
            players,
            n,
            attack_cards,
            throw_bool,
            transfered_cards,
            def_cards,
        ) == Passing::Go(Seats { whose_turn: ((s.whose_turn.0 + 1) as u8, a), found: true, ..s }),
{
    lemma_neighbour_seats(s.whose_turn.1, n);
    let a = seat_after(s.whose_turn.1, n)->0;
    assert(players.contains_key(a));
}

/// At a full table (fewer than 255 seats), when the attacker neither attacked
/// nor threw a card in, the player two seats on throws in next, when there is
/// such a seat (from seat 9 on, it must not be the last seat: the search then
/// starts from seat 0).
pub proof fn lemma_first_thrower_two_seats_on(
    s: Seats,
    players: Map<Id, PlayerData>,
    n: u8,
    attack_cards: Option<bool>,
    throw_bool: Option<bool>,
    transfered_cards: Option<bool>,
    def_cards: Option<bool>,
)
    requires
        n < 255,
        1 <= s.whose_turn.1,
        s.whose_turn.1 + 2 <= n,
        s.whose_turn.1 + 2 < 9 || s.whose_turn.1 + 2 < n,
        s.whose_turn.0 == 1,
        !s.found,
        attack_cards != Some(true),
        throw_bool != Some(true),
        full_table(players, n),
    ensures
        passing(s, players, n, attack_cards, throw_bool, transfered_cards, def_cards)
            == Passing::Go(Seats { whose_turn: (3, (s.whose_turn.1 + 2) as u8), found: true, ..s }),
{
    let t = (s.whose_turn.1 + 2) as u8;
    if s.whose_turn.1 + 2 >= 9 {
        assert((s.whose_turn.1 + 2) % (n as int) == s.whose_turn.1 + 2) by (nonlinear_arith)
            requires
                0 <= s.whose_turn.1 + 2 < n,
        ;
    }
    assert(players.contains_key(t) && seat_has_cards(players, t));
    assert(seat_after(t, n) is Some);
    assert(thrower_search(s, players, n, t, 256) == Passing::Go(Seats { whose_turn: (3, t), found: true, ..s }));
}

} // verus!
