//! The card logic of a game of Durak ("the fool"): building and shuffling
//! the deck, dealing and replenishing hands, the moves on the table
//! (attacking, throwing in, transferring, beating and taking the cards), the
//! dialogs in which the players make them, and the passing of the turn.

pub mod card;
pub mod deck;
pub mod hand;
pub mod table;
pub mod shuffle;
pub mod moves;
pub mod game;
pub mod laws;
pub mod dialog;
pub mod setup;
mod walk;
