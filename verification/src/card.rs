use vstd::prelude::*;

verus! {

/// What the game knows of a card besides its value: the letter of its suit
/// and whether that suit is the trump suit.
#[derive(Debug, Clone, Copy, PartialEq, Eq, Structural)]
pub struct Card {
    pub suit: char,
    pub trump: bool,
}

/// The index of the suit of a card: cards `1..=div` are the first suit,
/// `div + 1..=2 * div` the second one, and so on.
pub open spec fn suit_index(card_value: u8, div_from_volume: u8) -> int {
    (card_value - 1) / (div_from_volume as int)
}

/// A card value that names a card of one of the four suits.
pub open spec fn valid_card_value(card_value: u8, div_from_volume: u8) -> bool {
    &&& 1 <= card_value
    &&& 0 < div_from_volume
    &&& suit_index(card_value, div_from_volume) < 4
}

/// The letter of the suit with the given index: clubs, spades, hearts, diamonds.
pub open spec fn suit_letter(index: int) -> char {
    if index == 0 {
        'c'
    } else if index == 1 {
        's'
    } else if index == 2 {
        'h'
    } else {
        'd'
    }
}

/// The card that the value `card_value` stands for when the trump card has
/// the value `trump_volume`.
pub open spec fn card_data(card_value: u8, div_from_volume: u8, trump_volume: u8) -> Card {
    Card {
        suit: suit_letter(suit_index(card_value, div_from_volume)),
        trump: suit_index(card_value, div_from_volume) == suit_index(trump_volume, div_from_volume),
    }
}

/// The number of cards in each of the four suits of a deck of the given size.
pub fn count_div(trump_card_location: usize) -> (div: u8)
    requires
        trump_card_location == 24 || trump_card_location == 36 || trump_card_location == 52,
    ensures
        4 * div == trump_card_location,
{
    match trump_card_location {
        24 => 6,
        36 => 9,
        _ => 13,
    }
}

/// The suit and trump flag of the card with the value `card_volume`.
pub fn filling_in_card_data(card_volume: u8, div_from_volume: u8, trump_volume: u8) -> (card: Card)
    requires
        valid_card_value(card_volume, div_from_volume),
        1 <= trump_volume,
    ensures
        card == card_data(card_volume, div_from_volume, trump_volume),
{
    let trump_data = (((card_volume - 1) / div_from_volume) as i32) == (((trump_volume - 1)
        / div_from_volume) as i32);
    let index = (card_volume - 1) / div_from_volume;
    if index == 0 {
        Card { suit: 'c', trump: trump_data }
    } else if index == 1 {
        Card { suit: 's', trump: trump_data }
    } else if index == 2 {
        Card { suit: 'h', trump: trump_data }
    } else {
        Card { suit: 'd', trump: trump_data }
    }
}

} // verus!
