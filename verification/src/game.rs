use std::collections::{HashMap, HashSet};
use vstd::prelude::*;

use crate::deck::{draws, fill_player_deck, DeckCards, PlayerData};
use crate::card::Card;
use crate::hand::Id;
use crate::table::{AttackerDeck, DefenderDeck};

verus! {

/// Everything on and around the table during a game.
pub struct GameData {
    pub who_attacker: Id,
    pub who_defender: Id,
    pub attacker_deck: AttackerDeck,
    pub defender_deck: DefenderDeck,
    pub deck_of_cards: DeckCards,
    pub players_data: HashMap<Id, PlayerData>,
}

/// Who is to move and in which role (1 attacker, 2 defender, 3 and up
/// throwers), who attacks and who defends, whether the game is over, and
/// whether a player to move has been found in this passing of the turn.
#[derive(Clone, Copy)]
pub struct Seats {
    pub whose_turn: (u8, u8),
    pub attacker: Id,
    pub defender: Id,
    pub win: bool,
    pub found: bool,
}

/// The outcome of passing the turn on.
#[derive(Clone, Copy)]
pub enum Passing {
    /// The turn passed (or the game ended) with these seats.
    Go(Seats),
    /// No player can take the turn, and the search for one goes on forever.
    Stalled,
    /// A seat number left the byte range, the game has no seats, or a seat
    /// that had to be looked at holds no player.
    Broken,
}

/// The seat after `id` at a table of `n` seats; `None` when it leaves the byte
/// range or the table has no seats.
pub open spec fn seat_after(id: u8, n: u8) -> Option<u8> {
    if id == 255 {
        None
    } else if id + 1 > n {
        if n == 0 {
            None
        } else {
            Some(((id + 1) % (n as int)) as u8)
        }
    } else {
        Some((id + 1) as u8)
    }
}

/// The seat before `id` at a table of `n` seats; `None` below seat 0.
pub open spec fn seat_before(id: u8, n: u8) -> Option<u8> {
    if id == 0 {
        None
    } else if id == 1 {
        Some(n)
    } else {
        Some((id - 1) as u8)
    }
}

/// The player at seat `id` holds cards.
pub open spec fn seat_has_cards(players: Map<Id, PlayerData>, id: Id) -> bool {
    !players[id].cards@.dom().is_empty()
}

fn next_seat(id: u8, n: u8) -> (seat: Option<u8>)
    ensures
        seat == seat_after(id, n),
{
    if id == 255 {
        None
    } else if id + 1 > n {
        if n == 0 {
            None
        } else {
            Some((id + 1) % n)
        }
    } else {
        Some(id + 1)
    }
}

fn seat_has_player(players: &HashMap<Id, PlayerData>, id: Id) -> (present: bool)
    ensures
        present == players@.contains_key(id),
{
    players.contains_key(&id)
}

fn player_has_cards(players: &HashMap<Id, PlayerData>, id: Id) -> (has: bool)
    requires
        players@.contains_key(id),
    ensures
        has == seat_has_cards(players@, id),
{
    !players.get(&id).unwrap().cards.is_empty()
}

/// The search for a thrower, from seat `seat`, with `fuel` seats still to look at.
pub open spec fn thrower_search(s: Seats, players: Map<Id, PlayerData>, n: u8, seat: u8, fuel: nat) -> Passing
    decreases fuel,
{
    if fuel == 0 {
        Passing::Stalled
    } else if !players.contains_key(seat) {
        Passing::Broken
    } else {
        match seat_after(seat, n) {
            None => Passing::Broken,
            Some(next) => if seat_has_cards(players, seat) {
                Passing::Go(Seats { whose_turn: (3, seat), found: true, ..s })
            } else {
                thrower_search(s, players, n, next, (fuel - 1) as nat)
            },
        }
    }
}

/// After the attacker's move: the defender is the next seat once the attack
/// was made or a card was thrown in; otherwise the first seat from two after
/// the attacker on whose player holds cards throws in next.
pub open spec fn after_attack(
    s: Seats,
    players: Map<Id, PlayerData>,
    n: u8,
    attack_cards: Option<bool>,
    throw_bool: Option<bool>,
) -> Passing {
    let t = s.whose_turn.1;
    if s.whose_turn.0 != 1 {
        Passing::Go(s)
    } else if attack_cards == Some(true) || throw_bool == Some(true) {
        match seat_after(t, n) {
            None => Passing::Broken,
            Some(d) => if attack_cards == Some(true) && d == t {
                Passing::Go(Seats { win: true, ..s })
            } else if !players.contains_key(d) {
                Passing::Broken
            } else if seat_has_cards(players, d) {
                Passing::Go(Seats { whose_turn: (2, d), defender: d, found: true, ..s })
            } else {
                Passing::Stalled
            },
        }
    } else if t >= 254 {
        Passing::Broken
    } else if t + 2 < 9 {
        thrower_search(s, players, n, (t + 2) as u8, 256)
    } else if n == 0 {
        Passing::Broken
    } else {
        thrower_search(s, players, n, ((t + 2) % (n as int)) as u8, 256)
    }
}

/// After the defender's move: when the attack was passed on, the next seat
/// defends; when it was beaten, the seat before attacks; otherwise the seat
/// after attacks.
pub open spec fn after_defence(
    s: Seats,
    players: Map<Id, PlayerData>,
    n: u8,
    transfered_cards: Option<bool>,
    def_cards: Option<bool>,
) -> Passing {
    let t = s.whose_turn.1;
    if s.whose_turn.0 != 2 || s.found {
        Passing::Go(s)
    } else if transfered_cards == Some(true) {
        match seat_after(t, n) {
            None => Passing::Broken,
            Some(d) => if d == t {
                Passing::Go(Seats { win: true, ..s })
            } else if !players.contains_key(d) {
                Passing::Broken
            } else if seat_has_cards(players, d) {
                Passing::Go(Seats { whose_turn: (2, d), attacker: t, defender: d, found: true, ..s })
            } else {
                Passing::Stalled
            },
        }
    } else if def_cards == Some(true) {
        match seat_before(t, n) {
            None => Passing::Broken,
            Some(a) => if players.contains_key(a) {
                Passing::Go(Seats { whose_turn: (1, a), found: true, ..s })
            } else if a == t {
                Passing::Go(Seats { win: true, found: true, ..s })
            } else {
                Passing::Stalled
            },
        }
    } else {
        match seat_after(t, n) {
            None => Passing::Broken,
            Some(a) => if a == t {
                Passing::Go(Seats { win: true, ..s })
            } else if players.contains_key(a) {
                Passing::Go(Seats { whose_turn: (1, a), found: true, ..s })
            } else {
                Passing::Stalled
            },
        }
    }
}

/// After a thrower's move: when a card was thrown in, the defender moves;
/// otherwise the next seat with a player throws.
pub open spec fn after_throw(s: Seats, players: Map<Id, PlayerData>, n: u8, throw_bool: Option<bool>) -> Passing {
    let t = s.whose_turn.1;
    if s.whose_turn.0 <= 2 {
        Passing::Go(s)
    } else if throw_bool == Some(true) {
        Passing::Go(Seats { whose_turn: (2, s.defender), ..s })
    } else if s.found {
        Passing::Go(s)
    } else {
        match seat_after(t, n) {
            None => Passing::Broken,
            Some(a) => if a == t {
                Passing::Go(Seats { win: true, ..s })
            } else if !players.contains_key(a) {
                Passing::Stalled
            } else if s.whose_turn.0 == 255 {
                Passing::Broken
            } else {
                Passing::Go(Seats { whose_turn: ((s.whose_turn.0 + 1) as u8, a), found: true, ..s })
            },
        }
    }
}

/// Passing the turn on after a move: the attacker's, then the defender's,
/// then the thrower's rule, each applied to the seats the one before left.
pub open spec fn passing(
    s: Seats,
    players: Map<Id, PlayerData>,
    n: u8,
    attack_cards: Option<bool>,
    throw_bool: Option<bool>,
    transfered_cards: Option<bool>,
    def_cards: Option<bool>,
) -> Passing {
    match after_attack(s, players, n, attack_cards, throw_bool) {
        Passing::Go(s1) => match after_defence(s1, players, n, transfered_cards, def_cards) {
            Passing::Go(s2) => after_throw(s2, players, n, throw_bool),
            other => other,
        },
        other => other,
    }
}

fn search_thrower(s: Seats, players: &HashMap<Id, PlayerData>, n: u8, start: u8) -> (p: Passing)
    ensures
        p == thrower_search(s, players@, n, start, 256),
{
    let mut seat = start;
    let mut fuel: u16 = 256;
    while fuel > 0
        invariant
            fuel <= 256,
            thrower_search(s, players@, n, seat, fuel as nat) == thrower_search(s, players@, n, start, 256),
        decreases fuel,
    {
        if !seat_has_player(players, seat) {
            return Passing::Broken;
        }
        match next_seat(seat, n) {
            None => {
                return Passing::Broken;
            },
            Some(next) => {
                if player_has_cards(players, seat) {
                    return Passing::Go(Seats { whose_turn: (3, seat), found: true, ..s });
                }
                seat = next;
            },
        }
        fuel = fuel - 1;
    }
    Passing::Stalled
}

fn pass_after_attack(
    s: Seats,
    players: &HashMap<Id, PlayerData>,
    n: u8,
    attack_cards: Option<bool>,
    throw_bool: Option<bool>,
) -> (p: Passing)
    ensures
        p == after_attack(s, players@, n, attack_cards, throw_bool),
{
    let t = s.whose_turn.1;
    let attacked = match attack_cards {
        Some(b) => b,
        None => false,
    };
    let thrown = match throw_bool {
        Some(b) => b,
        None => false,
    };
    if s.whose_turn.0 != 1 {
        Passing::Go(s)
    } else if attacked || thrown {
        match next_seat(t, n) {
            None => Passing::Broken,
            Some(d) => if attacked && d == t {
                Passing::Go(Seats { win: true, ..s })
            } else if !seat_has_player(players, d) {
                Passing::Broken
            } else if player_has_cards(players, d) {
                Passing::Go(Seats { whose_turn: (2, d), defender: d, found: true, ..s })
            } else {
                Passing::Stalled
            },
        }
    } else if t >= 254 {
        Passing::Broken
    } else if t + 2 < 9 {
        search_thrower(s, players, n, t + 2)
    } else if n == 0 {
        Passing::Broken
    } else {
        search_thrower(s, players, n, (t + 2) % n)
    }
}

fn pass_after_defence(
    s: Seats,
    players: &HashMap<Id, PlayerData>,
    n: u8,
    transfered_cards: Option<bool>,
    def_cards: Option<bool>,
) -> (p: Passing)
    ensures
        p == after_defence(s, players@, n, transfered_cards, def_cards),
{
    let t = s.whose_turn.1;
    let transfered = match transfered_cards {
        Some(b) => b,
        None => false,
    };
    let defended = match def_cards {
        Some(b) => b,
        None => false,
    };
    if s.whose_turn.0 != 2 || s.found {
        Passing::Go(s)
    } else if transfered {
        match next_seat(t, n) {
            None => Passing::Broken,
            Some(d) => if d == t {
                Passing::Go(Seats { win: true, ..s })
            } else if !seat_has_player(players, d) {
                Passing::Broken
            } else if player_has_cards(players, d) {
                Passing::Go(Seats { whose_turn: (2, d), attacker: t, defender: d, found: true, ..s })
            } else {
                Passing::Stalled
            },
        }
    } else if defended {
        if t == 0 {
            Passing::Broken
        } else {
            let a = if t - 1 == 0 {
                n
            } else {
                t - 1
            };
            if seat_has_player(players, a) {
                Passing::Go(Seats { whose_turn: (1, a), found: true, ..s })
            } else if a == t {
                Passing::Go(Seats { win: true, found: true, ..s })
            } else {
                Passing::Stalled
            }
        }
    } else {
        match next_seat(t, n) {
            None => Passing::Broken,
            Some(a) => if a == t {
                Passing::Go(Seats { win: true, ..s })
            } else if seat_has_player(players, a) {
                Passing::Go(Seats { whose_turn: (1, a), found: true, ..s })
            } else {
                Passing::Stalled
            },
        }
    }
}

fn pass_after_throw(s: Seats, players: &HashMap<Id, PlayerData>, n: u8, throw_bool: Option<bool>) -> (p: Passing)
    ensures
        p == after_throw(s, players@, n, throw_bool),
{
    let t = s.whose_turn.1;
    let thrown = match throw_bool {
        Some(b) => b,
        None => false,
    };
    if s.whose_turn.0 <= 2 {
        Passing::Go(s)
    } else if thrown {
        Passing::Go(Seats { whose_turn: (2, s.defender), ..s })
    } else if s.found {
        Passing::Go(s)
    } else {
        match next_seat(t, n) {
            None => Passing::Broken,
            Some(a) => if a == t {
                Passing::Go(Seats { win: true, ..s })
            } else if !seat_has_player(players, a) {
                Passing::Stalled
            } else if s.whose_turn.0 == 255 {
                Passing::Broken
            } else {
                Passing::Go(Seats { whose_turn: (s.whose_turn.0 + 1, a), found: true, ..s })
            },
        }
    }
}

/// Passes the turn on after a move, from the seats `seats` (with `win` and
/// `found` false as a move begins), at a table of `chosen_num` seats.
pub fn pass_turn(
    seats: Seats,
    players_data: &HashMap<Id, PlayerData>,
    chosen_num: u8,
    attack_cards: Option<bool>,
    throw_bool: Option<bool>,
    transfered_cards: Option<bool>,
    def_cards: Option<bool>,
) -> (p: Passing)
    ensures
        p == passing(seats, players_data@, chosen_num, attack_cards, throw_bool, transfered_cards, def_cards),
{
    match pass_after_attack(seats, players_data, chosen_num, attack_cards, throw_bool) {
        Passing::Go(s1) => match pass_after_defence(s1, players_data, chosen_num, transfered_cards, def_cards) {
            Passing::Go(s2) => pass_after_throw(s2, players_data, chosen_num, throw_bool),
            other => other,
        },
        other => other,
    }
}

/// After a move that ended with the attack passed on, or after the
/// defender's answer, the attacker's hand is refilled to seven cards from the deck (when
/// the deck is not empty and the attacker has a seat). Returns false where the
/// game cannot go on: the attacker holds more than seven cards, or sits at
/// seat 255; in the first case nothing changes.
pub fn replenish(game: &mut GameData, transfered_cards: Option<bool>, def_cards: Option<bool>) -> (ok: bool)
    ensures
        final(game).who_attacker == old(game).who_attacker,
        final(game).who_defender == old(game).who_defender,
        final(game).attacker_deck == old(game).attacker_deck,
        final(game).defender_deck == old(game).defender_deck,
        ({
            let a = old(game).who_attacker;
            let refill = (transfered_cards == Some(true) || def_cards is Some)
                && !old(game).deck_of_cards.cards@.dom().is_empty()
                && old(game).players_data@.contains_key(a);
            let hand = old(game).players_data@[a].cards@;
            &&& !refill ==> ok && final(game).deck_of_cards == old(game).deck_of_cards
                && final(game).players_data == old(game).players_data
            &&& refill && hand.len() > 7 ==> !ok && final(game).deck_of_cards == old(game).deck_of_cards
                && final(game).players_data@ == old(game).players_data@
            &&& refill && hand.len() <= 7 ==> {
                &&& ok == (a != 255)
                &&& final(game).players_data@.dom() == old(game).players_data@.dom()
                &&& forall|id: Id| #[trigger] final(game).players_data@.contains_key(id) && id != a
                    ==> final(game).players_data@[id] == old(game).players_data@[id]
                &&& final(game).players_data@[a].bot == old(game).players_data@[a].bot
                &&& exists|taken: Map<u8, Card>|
                    #[trigger] draws(old(game).deck_of_cards.cards@, hand, taken, final(game).players_data@[a].cards@)
                &&& final(game).deck_of_cards.cards@ == old(game).deck_of_cards.cards@.remove_keys(
                    final(game).players_data@[a].cards@.dom())
            }
        }),
{
    let filling_player_id = game.who_attacker;
    let transfered = match transfered_cards {
        Some(b) => b,
        None => false,
    };
    if (transfered || def_cards.is_some()) && !game.deck_of_cards.cards.is_empty() {
        if game.players_data.contains_key(&filling_player_id) {
            let ghost players = game.players_data@;
            let mut player_data = game.players_data.remove(&filling_player_id).unwrap();
            if player_data.cards.len() > 7 {
                game.players_data.insert(filling_player_id, player_data);
                assert(game.players_data@ =~= players);
                return false;
            }
            fill_player_deck(&mut game.deck_of_cards, &mut player_data.cards);
            game.players_data.insert(filling_player_id, player_data);
            if filling_player_id == 255 {
                return false;
            }
        }
    }
    true
}

/// What the player to move does.
pub enum Move {
    /// Choose and lay the cards of the attack.
    Attack,
    /// Throw cards in, when some card of the hand matches the table.
    ThrowIn,
    /// Answer the attack: pass it on or beat it.
    Defend,
    /// No role has this number.
    NoSuchRole,
}

/// The move of the player in role `role`: the attacker attacks until the
/// attack is made (`attack_cards` is `Some(false)` until then) and throws in
/// afterwards; the defender defends; roles 3 to 8 throw in.
pub fn move_for(role: u8, attack_cards: Option<bool>) -> (m: Move)
    ensures
        m == if role == 1 {
            if attack_cards == Some(false) {
                Move::Attack
            } else {
                Move::ThrowIn
            }
        } else if role == 2 {
            Move::Defend
        } else if 3 <= role <= 8 {
            Move::ThrowIn
        } else {
            Move::NoSuchRole
        },
{
    if role == 1 {
        match attack_cards {
            Some(false) => Move::Attack,
            _ => Move::ThrowIn,
        }
    } else if role == 2 {
        Move::Defend
    } else if 3 <= role && role <= 8 {
        Move::ThrowIn
    } else {
        Move::NoSuchRole
    }
}

/// The defender is offered to pass the attack on when nothing has been
/// beaten yet and some card of the hand can pass it on.
pub fn offers_transfer(defender_deck: &DefenderDeck, transferrable_cards: &HashSet<u8>) -> (offered: bool)
    ensures
        offered == (defender_deck.defending_cards@.dom().is_empty() && !transferrable_cards@.is_empty()),
{
    defender_deck.defending_cards.is_empty() && !transferrable_cards.is_empty()
}

} // verus!
