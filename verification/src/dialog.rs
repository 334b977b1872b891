//! The dialogs of a move: what the program asks the player next, given the
//! answer just read, and what each answer does to the cards.

use std::collections::{HashMap, HashSet};
use vstd::prelude::*;

use crate::card::Card;
use crate::deck::PlayerData;
use crate::hand::{check_duplicate_cards, get_playable_cards_with_duplicate, has_duplicate_suit, suits_below_div};
use crate::moves::{all_beaten, beat_with, pick_card, pick_from_hand, start_defence, throwable_count, Defence};
use crate::table::{beating_cards, cards_of_ranks, conserves, play_card, ranks_of, throwable_cards, AttackerDeck, DefenderDeck};

verus! {

/// What the program does next in the dialog with the player who moves.
pub enum Ask {
    /// Show the playable cards and ask which one to play.
    PlayableCard,
    /// Show the hand and ask which card to play.
    HandCard,
    /// Ask whether to play another card.
    Another,
    /// Say that the card is not playable, then ask for a playable card again.
    NotPlayable,
    /// Say that the hand holds no such card, then ask for a card of the hand again.
    NotInHand,
    /// Show the hand and ask whether to throw cards in at all.
    WhetherToThrow,
    /// Show the hand and the attack and ask which attacking card to beat.
    AttackedCard,
    /// Ask which of the cards that beat the named attacking card to play.
    DefendingCard,
    /// The player has no card to throw in: the move is skipped.
    NothingToThrow,
    /// The move cannot be made: a bot is to move, or the defender has beaten
    /// more cards than the defender held.
    Unplayable,
    /// The dialog is over, with this answer.
    Done(bool),
}

/// The state of the attacker's choice of cards.
pub struct Choosing {
    pub num_throwable_cards: u8,
    pub check_duplicate: bool,
    pub playable_cards: HashMap<u8, Card>,
    pub throw_more: bool,
}

/// Begins the attacker's choice. Nothing can be played once the defender has
/// beaten as many cards as the defender held. A hand with two cards of one
/// suit may play several cards, starting from the whole hand; any other hand
/// plays one card.
pub fn begin_choosing(
    player_cards: &mut HashMap<u8, Card>,
    defending_deck: &DefenderDeck,
    div_from_volume: u8,
) -> (res: (Choosing, Ask))
    requires
        (defending_deck.pairs_beaten_cards@.len() as u8) <= defending_deck.how_much_cards_defender_have,
        defending_deck.how_much_cards_defender_have != (defending_deck.pairs_beaten_cards@.len() as u8)
            ==> suits_below_div(old(player_cards)@.dom(), div_from_volume),
    ensures
        final(player_cards)@ == old(player_cards)@,
        res.0.num_throwable_cards == defending_deck.how_much_cards_defender_have
            - (defending_deck.pairs_beaten_cards@.len() as u8),
        res.0.num_throwable_cards == 0 ==> res.1 == Ask::Done(false),
        res.0.num_throwable_cards != 0 ==> {
            &&& res.0.check_duplicate == has_duplicate_suit(old(player_cards)@.dom(), div_from_volume)
            &&& res.0.check_duplicate ==> res.0.playable_cards@ == old(player_cards)@ && res.0.throw_more
                && res.1 == Ask::PlayableCard
            &&& !res.0.check_duplicate ==> res.0.playable_cards@ == Map::<u8, Card>::empty()
                && res.1 == Ask::HandCard
        },
{
    let num_throwable_cards = throwable_count(defending_deck);
    let mut playable_cards: HashMap<u8, Card> = HashMap::new();
    if num_throwable_cards == 0 {
        return (Choosing { num_throwable_cards, check_duplicate: false, playable_cards, throw_more: false }, Ask::Done(false));
    }
    let check_duplicate = check_duplicate_cards(player_cards, div_from_volume);
    if check_duplicate {
        get_playable_cards_with_duplicate(player_cards, &mut playable_cards, div_from_volume);
        (Choosing { num_throwable_cards, check_duplicate, playable_cards, throw_more: true }, Ask::PlayableCard)
    } else {
        (Choosing { num_throwable_cards, check_duplicate, playable_cards, throw_more: false }, Ask::HandCard)
    }
}

/// The attacker names the card `chosen_card`. With several cards to play it
/// must be playable, and it moves from the playable cards to the chosen ones;
/// with one card to play it must be in the hand, and it joins the chosen cards.
pub fn choose_card(
    state: &mut Choosing,
    chosen_cards: &mut HashMap<u8, Card>,
    player_cards: &HashMap<u8, Card>,
    chosen_card: u8,
) -> (ask: Ask)
    requires
        old(state).check_duplicate && old(state).playable_cards@.contains_key(chosen_card)
            ==> old(state).num_throwable_cards > 0,
    ensures
        final(state).check_duplicate == old(state).check_duplicate,
        final(state).throw_more == old(state).throw_more,
        old(state).check_duplicate && old(state).playable_cards@.contains_key(chosen_card) ==> {
            &&& ask == Ask::Another
            &&& final(chosen_cards)@ == old(chosen_cards)@.insert(chosen_card, old(state).playable_cards@[chosen_card])
            &&& final(state).playable_cards@ == old(state).playable_cards@.remove(chosen_card)
            &&& final(state).num_throwable_cards == old(state).num_throwable_cards - 1
        },
        old(state).check_duplicate && !old(state).playable_cards@.contains_key(chosen_card) ==> {
            &&& ask == Ask::NotPlayable
            &&& final(chosen_cards)@ == old(chosen_cards)@
            &&& final(state).playable_cards@ == old(state).playable_cards@
            &&& final(state).num_throwable_cards == old(state).num_throwable_cards
        },
        !old(state).check_duplicate ==> {
            &&& final(state).playable_cards@ == old(state).playable_cards@
            &&& final(state).num_throwable_cards == old(state).num_throwable_cards
            &&& player_cards@.contains_key(chosen_card) ==> ask == Ask::Done(true)
                && final(chosen_cards)@ == old(chosen_cards)@.insert(chosen_card, player_cards@[chosen_card])
            &&& !player_cards@.contains_key(chosen_card) ==> ask == Ask::NotInHand
                && final(chosen_cards)@ == old(chosen_cards)@
        },
{
    if state.check_duplicate {
        if pick_card(chosen_cards, &mut state.playable_cards, &mut state.num_throwable_cards, chosen_card) {
            Ask::Another
        } else {
            Ask::NotPlayable
        }
    } else if pick_from_hand(chosen_cards, player_cards, chosen_card) {
        Ask::Done(true)
    } else {
        Ask::NotInHand
    }
}

/// The attacker answers whether to play another card; the choice goes on
/// while the attacker wants more or cards may still be played.
pub fn answer_another(state: &mut Choosing, throw_more: bool) -> (ask: Ask)
    ensures
        final(state).throw_more == throw_more,
        final(state).num_throwable_cards == old(state).num_throwable_cards,
        final(state).check_duplicate == old(state).check_duplicate,
        final(state).playable_cards@ == old(state).playable_cards@,
        ask == if throw_more || old(state).num_throwable_cards > 0 { Ask::PlayableCard } else { Ask::Done(true) },
{
    state.throw_more = throw_more;
    if state.throw_more || state.num_throwable_cards > 0 {
        Ask::PlayableCard
    } else {
        Ask::Done(true)
    }
}

/// The state of a thrower's dialog.
pub struct Throwing {
    pub num_throwable_cards: u8,
    pub throw_bool: bool,
    pub throw_more: bool,
    pub playable_cards: HashMap<u8, Card>,
    pub chosen_cards: HashMap<u8, Card>,
}

/// The cards of the hand that may be thrown in: those of the rank of some
/// card on the table.
pub open spec fn throwable_of(attacker_deck: AttackerDeck, defending_deck: DefenderDeck, players_data: PlayerData, div_from_volume: u8) -> Map<u8, Card> {
    cards_of_ranks(
        players_data.cards@,
        ranks_of(attacker_deck.attacking_cards@.dom().union(defending_deck.defending_cards@.dom()), div_from_volume),
        div_from_volume,
    )
}

/// Begins a thrower's dialog. The playable cards are the hand's cards of a
/// rank that lies on the table; with none the move is skipped. Bots do not
/// throw, and nothing can be thrown once the defender has beaten as many
/// cards as the defender held.
pub fn begin_throwing(
    attacker_deck: &AttackerDeck,
    defending_deck: &DefenderDeck,
    players_data: &PlayerData,
    div_from_volume: u8,
) -> (res: (Throwing, Ask))
    requires
        0 < div_from_volume || (attacker_deck.attacking_cards@.dom().is_empty()
            && defending_deck.defending_cards@.dom().is_empty() && players_data.cards@.dom().is_empty()),
    ensures
        res.0.playable_cards@ == throwable_of(*attacker_deck, *defending_deck, *players_data, div_from_volume),
        !res.0.throw_bool,
        res.0.throw_more,
        res.0.chosen_cards@ == Map::<u8, Card>::empty(),
        res.0.playable_cards@.dom().is_empty() ==> res.1 == Ask::NothingToThrow,
        !res.0.playable_cards@.dom().is_empty() && (players_data.bot
            || (defending_deck.pairs_beaten_cards@.len() as u8) > defending_deck.how_much_cards_defender_have)
            ==> res.1 == Ask::Unplayable,
        !res.0.playable_cards@.dom().is_empty() && !players_data.bot
            && (defending_deck.pairs_beaten_cards@.len() as u8) <= defending_deck.how_much_cards_defender_have ==> {
            &&& res.0.num_throwable_cards == defending_deck.how_much_cards_defender_have
                - (defending_deck.pairs_beaten_cards@.len() as u8)
            &&& res.1 == if res.0.num_throwable_cards == 0 { Ask::Done(false) } else { Ask::WhetherToThrow }
        },
{
    let attack = AttackerDeck { attacking_cards: attacker_deck.attacking_cards.clone() };
    let defence = DefenderDeck {
        pairs_beaten_cards: defending_deck.pairs_beaten_cards.clone(),
        defending_cards: defending_deck.defending_cards.clone(),
        how_much_cards_defender_have: defending_deck.how_much_cards_defender_have,
    };
    let hand = PlayerData { cards: players_data.cards.clone(), bot: players_data.bot };
    let playable_cards = throwable_cards(attack, defence, hand, div_from_volume);
    let mut state = Throwing {
        num_throwable_cards: 0,
        throw_bool: false,
        throw_more: true,
        playable_cards,
        chosen_cards: HashMap::new(),
    };
    if state.playable_cards.is_empty() {
        return (state, Ask::NothingToThrow);
    }
    let beaten = #[verifier::truncate] (defending_deck.pairs_beaten_cards.len() as u8);
    if players_data.bot || beaten > defending_deck.how_much_cards_defender_have {
        return (state, Ask::Unplayable);
    }
    state.num_throwable_cards = throwable_count(defending_deck);
    if state.num_throwable_cards == 0 {
        (state, Ask::Done(false))
    } else {
        (state, Ask::WhetherToThrow)
    }
}

/// The thrower answers whether to throw cards in; a first card is asked for
/// either way, as a dialog begins wanting more.
pub fn answer_whether_to_throw(state: &mut Throwing, throw_bool: bool) -> (ask: Ask)
    ensures
        final(state).throw_bool == throw_bool,
        final(state).throw_more == old(state).throw_more,
        final(state).num_throwable_cards == old(state).num_throwable_cards,
        final(state).chosen_cards@ == old(state).chosen_cards@,
        final(state).playable_cards@ == old(state).playable_cards@,
        ask == if throw_bool || old(state).throw_more { Ask::PlayableCard } else { Ask::Done(false) },
{
    state.throw_bool = throw_bool;
    if state.throw_bool || state.throw_more {
        Ask::PlayableCard
    } else {
        Ask::Done(state.throw_bool)
    }
}

/// The thrower names the card `chosen_card`; a playable card moves from the
/// playable cards to the chosen ones.
pub fn throw_card(state: &mut Throwing, chosen_card: u8) -> (ask: Ask)
    requires
        old(state).playable_cards@.contains_key(chosen_card) ==> old(state).num_throwable_cards > 0,
    ensures
        final(state).throw_bool == old(state).throw_bool,
        final(state).throw_more == old(state).throw_more,
        old(state).playable_cards@.contains_key(chosen_card) ==> {
            &&& ask == Ask::Another
            &&& final(state).chosen_cards@ == old(state).chosen_cards@.insert(
                chosen_card,
                old(state).playable_cards@[chosen_card],
            )
            &&& final(state).playable_cards@ == old(state).playable_cards@.remove(chosen_card)
            &&& final(state).num_throwable_cards == old(state).num_throwable_cards - 1
        },
        !old(state).playable_cards@.contains_key(chosen_card) ==> {
            &&& ask == Ask::NotPlayable
            &&& final(state).chosen_cards@ == old(state).chosen_cards@
            &&& final(state).playable_cards@ == old(state).playable_cards@
            &&& final(state).num_throwable_cards == old(state).num_throwable_cards
        },
{
    if pick_card(&mut state.chosen_cards, &mut state.playable_cards, &mut state.num_throwable_cards, chosen_card) {
        Ask::Another
    } else {
        Ask::NotPlayable
    }
}

/// The thrower answers whether to throw another card. The dialog goes on
/// while the thrower said yes at first or wants more; when it ends the chosen
/// cards are laid on the table (each must already be there), and the answer
/// is whether the thrower said yes at first.
pub fn answer_throw_more(state: &mut Throwing, attacker_deck: &mut AttackerDeck, throw_more: bool) -> (ask: Ask)
    requires
        !old(state).throw_bool && !throw_more
            ==> old(state).chosen_cards@.dom().subset_of(old(attacker_deck).attacking_cards@.dom()),
    ensures
        final(state).throw_more == throw_more,
        final(state).throw_bool == old(state).throw_bool,
        final(state).num_throwable_cards == old(state).num_throwable_cards,
        final(state).playable_cards@ == old(state).playable_cards@,
        old(state).throw_bool || throw_more ==> {
            &&& ask == Ask::PlayableCard
            &&& final(state).chosen_cards@ == old(state).chosen_cards@
            &&& *final(attacker_deck) == *old(attacker_deck)
        },
        !old(state).throw_bool && !throw_more ==> {
            &&& ask == Ask::Done(false)
            &&& final(state).chosen_cards@ == Map::<u8, Card>::empty()
            &&& final(attacker_deck).attacking_cards@ == old(attacker_deck).attacking_cards@.union_prefer_right(
                old(state).chosen_cards@,
            )
        },
{
    state.throw_more = throw_more;
    if state.throw_bool || state.throw_more {
        Ask::PlayableCard
    } else {
        if !state.chosen_cards.is_empty() {
            play_card(attacker_deck, &mut state.chosen_cards);
        } else {
            assert(old(attacker_deck).attacking_cards@.union_prefer_right(old(state).chosen_cards@)
                =~= old(attacker_deck).attacking_cards@);
        }
        Ask::Done(state.throw_bool)
    }
}

/// The state of the defender's dialog: the attacking card named last, and
/// the cards of the hand that beat it.
pub struct Defending {
    pub chosen_card: u8,
    pub defenderable_card: HashSet<u8>,
}

/// Begins the defender's dialog; bots do not defend.
pub fn begin_defence(players_data: &PlayerData) -> (res: (Defending, Ask))
    ensures
        res.0.defenderable_card@ == Set::<u8>::empty(),
        res.1 == if players_data.bot { Ask::Unplayable } else { Ask::AttackedCard },
{
    let state = Defending { chosen_card: 0, defenderable_card: HashSet::new() };
    if players_data.bot {
        (state, Ask::Unplayable)
    } else {
        (state, Ask::AttackedCard)
    }
}

/// The defender (not a bot) names the attacking card `chosen_card` to beat. A
/// value that is not attacking changes nothing; when no card of the hand
/// beats the card, the defender takes all the cards and the dialog ends with
/// `false`; otherwise the cards that beat it are offered, and kept in the
/// state with the named card. The dialog ends with `true` once every
/// attacking card is answered.
pub fn name_attacked_card(
    state: &mut Defending,
    attacker_deck: &mut AttackerDeck,
    defending_deck: &mut DefenderDeck,
    players_data: &mut PlayerData,
    chosen_card: u8,
    div_from_volume: u8,
) -> (ask: Ask)
    requires
        !old(players_data).bot,
        old(attacker_deck).attacking_cards@.contains_key(chosen_card)
            ==> old(attacker_deck).attacking_cards@[chosen_card].trump || 0 < div_from_volume
            || old(players_data).cards@.dom().is_empty(),
    ensures
        final(state).chosen_card == chosen_card,
        !old(attacker_deck).attacking_cards@.contains_key(chosen_card) ==> {
            &&& *final(attacker_deck) == *old(attacker_deck)
            &&& *final(defending_deck) == *old(defending_deck)
            &&& *final(players_data) == *old(players_data)
            &&& final(state).defenderable_card@ == Set::<u8>::empty()
            &&& ask == if old(attacker_deck).attacking_cards@.len() == old(defending_deck).defending_cards@.len() {
                Ask::Done(true)
            } else {
                Ask::AttackedCard
            }
        },
        old(attacker_deck).attacking_cards@.contains_key(chosen_card) ==> {
            let beating = beating_cards(
                old(players_data).cards@,
                chosen_card,
                old(attacker_deck).attacking_cards@[chosen_card],
                div_from_volume,
            );
            if beating.is_empty() {
                &&& ask == Ask::Done(false)
                &&& final(state).defenderable_card@ == Set::<u8>::empty()
                &&& final(players_data).cards@ == old(players_data).cards@.union_prefer_right(
                    old(attacker_deck).attacking_cards@,
                ).union_prefer_right(old(defending_deck).defending_cards@)
                &&& final(players_data).bot == old(players_data).bot
                &&& final(attacker_deck).attacking_cards@ == Map::<u8, Card>::empty()
                &&& final(defending_deck).defending_cards@ == Map::<u8, Card>::empty()
                &&& final(defending_deck).pairs_beaten_cards@ == Map::<u8, u8>::empty()
                &&& final(defending_deck).how_much_cards_defender_have
                    == old(defending_deck).how_much_cards_defender_have
            } else {
                &&& ask == Ask::DefendingCard
                &&& final(state).defenderable_card@ == beating
                &&& *final(attacker_deck) == *old(attacker_deck)
                &&& *final(defending_deck) == *old(defending_deck)
                &&& *final(players_data) == *old(players_data)
            }
        },
        conserves(
            old(players_data).cards@,
            old(attacker_deck).attacking_cards@,
            old(defending_deck).defending_cards@,
            final(players_data).cards@,
            final(attacker_deck).attacking_cards@,
            final(defending_deck).defending_cards@,
        ),
{
    state.chosen_card = chosen_card;
    match start_defence(attacker_deck, defending_deck, players_data, chosen_card, div_from_volume) {
        Defence::NotAttacking => {
            state.defenderable_card = HashSet::new();
            if all_beaten(attacker_deck, defending_deck) {
                Ask::Done(true)
            } else {
                Ask::AttackedCard
            }
        },
        Defence::TookAll => {
            state.defenderable_card = HashSet::new();
            Ask::Done(false)
        },
        Defence::Beatable(values) => {
            state.defenderable_card = values;
            Ask::DefendingCard
        },
    }
}

/// The defender (not a bot) names the card `chosen_def_card` to beat the
/// attacking card named last with; a card among those offered for it beats
/// it. The dialog ends with `true` once every attacking card is answered.
pub fn name_defending_card(
    state: &Defending,
    attacker_deck: &AttackerDeck,
    defending_deck: &mut DefenderDeck,
    players_data: &mut PlayerData,
    chosen_def_card: u8,
) -> (ask: Ask)
    requires
        !old(players_data).bot,
        state.defenderable_card@.contains(chosen_def_card) ==> old(players_data).cards@.contains_key(chosen_def_card),
    ensures
        state.defenderable_card@.contains(chosen_def_card) ==> {
            &&& final(defending_deck).pairs_beaten_cards@
                == old(defending_deck).pairs_beaten_cards@.insert(state.chosen_card, chosen_def_card)
            &&& final(defending_deck).defending_cards@ == old(defending_deck).defending_cards@.insert(
                chosen_def_card,
                old(players_data).cards@[chosen_def_card],
            )
            &&& final(defending_deck).how_much_cards_defender_have
                == old(defending_deck).how_much_cards_defender_have
            &&& final(players_data).cards@ == old(players_data).cards@.remove(chosen_def_card)
            &&& final(players_data).bot == old(players_data).bot
        },
        !state.defenderable_card@.contains(chosen_def_card) ==> *final(defending_deck) == *old(defending_deck)
            && *final(players_data) == *old(players_data),
        ask == if attacker_deck.attacking_cards@.len() == final(defending_deck).defending_cards@.len() {
            Ask::Done(true)
        } else {
            Ask::AttackedCard
        },
        conserves(
            old(players_data).cards@,
            attacker_deck.attacking_cards@,
            old(defending_deck).defending_cards@,
            final(players_data).cards@,
            attacker_deck.attacking_cards@,
            final(defending_deck).defending_cards@,
        ),
{
    beat_with(defending_deck, players_data, state.chosen_card, chosen_def_card, &state.defenderable_card);
    if all_beaten(attacker_deck, defending_deck) {
        Ask::Done(true)
    } else {
        Ask::AttackedCard
    }
}

} // verus!
