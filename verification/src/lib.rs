//! Poker hands of five cards: card codes, and the strength of a hand as a
//! category with an order that breaks ties inside the category.

pub mod codec;
pub mod error;
pub mod hand;
pub mod laws;
pub mod order;
pub mod rank;
pub mod sorting;
pub mod tally;

pub use codec::{decode, encode, CARDS_NUM, HAND_SIZE, NUMBER_NUM, SUIT_NUM};
pub use error::CardError;
pub use hand::calc_hand;
pub use rank::{outranks, Rank};
