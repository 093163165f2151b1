//! The deck and its card codes: one integer in `[0, 52)` for each pair of a
//! suit and a number.

use crate::error::CardError;
use vstd::prelude::*;

verus! {

/// Number of cards in a hand.
pub const HAND_SIZE: usize = 5;

/// Number of suits in the deck.
pub const SUIT_NUM: u32 = 4;

/// Number of card numbers in each suit. A higher number is a higher card:
/// 0 is the two, 9 the jack, 10 the queen, 11 the king and 12 the ace.
pub const NUMBER_NUM: u32 = 13;

/// Number of cards in the deck.
pub const CARDS_NUM: u32 = SUIT_NUM * NUMBER_NUM;

/// Whether `suit` and `number` name a card of the deck.
pub open spec fn valid_card(suit: u32, number: u32) -> bool {
    suit < SUIT_NUM && number < NUMBER_NUM
}

/// Whether `code` is the code of a card of the deck.
pub open spec fn valid_code(code: u32) -> bool {
    code < CARDS_NUM
}

/// The code of the card with the given suit and number.
pub open spec fn card_code(suit: u32, number: u32) -> nat {
    (suit * NUMBER_NUM + number) as nat
}

/// The suit of the card with the given code.
pub open spec fn card_suit(code: u32) -> u32 {
    code / NUMBER_NUM
}

/// The number of the card with the given code.
pub open spec fn card_number(code: u32) -> u32 {
    code % NUMBER_NUM
}

/// Gives the code of the card `(suit, number)`, or `OutOfRange` when the pair
/// names no card.
pub fn encode(suit: u32, number: u32) -> (r: Result<u32, CardError>)
    ensures
        valid_card(suit, number) <==> r is Ok,
        r matches Ok(code) ==> code == card_code(suit, number),
        r matches Err(e) ==> e == CardError::OutOfRange,
{
    if suit < SUIT_NUM && number < NUMBER_NUM {
        Ok(suit * NUMBER_NUM + number)
    } else {
        Err(CardError::OutOfRange)
    }
}

/// Gives the suit and the number of the card with the given code, or
/// `OutOfRange` when no card has that code.
pub fn decode(code: u32) -> (r: Result<(u32, u32), CardError>)
    ensures
        valid_code(code) <==> r is Ok,
        r matches Ok(card) ==> card == (card_suit(code), card_number(code)),
        r matches Err(e) ==> e == CardError::OutOfRange,
{
    if code < CARDS_NUM {
        Ok((code / NUMBER_NUM, code % NUMBER_NUM))
    } else {
        Err(CardError::OutOfRange)
    }
}

/// Decoding the code of a card gives the card back, and the code is that of
/// a card of the deck.
pub proof fn lemma_decode_encode(suit: u32, number: u32)
    requires
        valid_card(suit, number),
    ensures
        card_code(suit, number) < CARDS_NUM,
        card_suit(card_code(suit, number) as u32) == suit,
        card_number(card_code(suit, number) as u32) == number,
{
}

/// Encoding what a code decodes to gives the code back, and what it decodes
/// to is a card of the deck.
pub proof fn lemma_encode_decode(code: u32)
    requires
        valid_code(code),
    ensures
        valid_card(card_suit(code), card_number(code)),
        card_code(card_suit(code), card_number(code)) == code,
{
}

/// Two different cards have different codes.
pub proof fn lemma_encode_injective(suit1: u32, number1: u32, suit2: u32, number2: u32)
    requires
        valid_card(suit1, number1),
        valid_card(suit2, number2),
        card_code(suit1, number1) == card_code(suit2, number2),
    ensures
        suit1 == suit2,
        number1 == number2,
{
}

/// Two different codes decode to different cards.
pub proof fn lemma_decode_injective(code1: u32, code2: u32)
    requires
        valid_code(code1),
        valid_code(code2),
        card_suit(code1) == card_suit(code2),
        card_number(code1) == card_number(code2),
    ensures
        code1 == code2,
{
}

} // verus!
