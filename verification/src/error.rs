use vstd::prelude::*;

verus! {

/// Why a card or a hand was rejected.
#[derive(Debug, Clone, Copy, PartialEq, Eq, Structural)]
pub enum CardError {
    /// A suit, a number or a card code lies outside its domain.
    OutOfRange,
    /// A hand does not hold exactly five cards.
    WrongHandSize,
}

} // verus!
