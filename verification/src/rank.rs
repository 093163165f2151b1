//! The categories of a hand, from the weakest to the strongest, and how two
//! classified hands compare.

use vstd::prelude::*;

verus! {

/// The category of a hand, listed from the weakest to the strongest.
#[derive(Debug, Clone, Copy, PartialEq, Eq, Structural)]
pub enum Rank {
    /// No other category fits.
    High,
    /// Two cards of one number.
    OnePair,
    /// Two cards of one number and two of another.
    TwoPair,
    /// Three cards of one number.
    Trips,
    /// Five numbers in a row.
    Straight,
    /// Five cards of one suit: a flush.
    Flash,
    /// Three cards of one number and two of another.
    FullHouse,
    /// Four cards of one number.
    Quads,
    /// A straight in one suit: a straight flush.
    StraightFlash,
}

impl Rank {
    /// The place of the category in the list, 0 for the weakest.
    pub open spec fn level(self) -> nat {
        match self {
            Rank::High => 0,
            Rank::OnePair => 1,
            Rank::TwoPair => 2,
            Rank::Trips => 3,
            Rank::Straight => 4,
            Rank::Flash => 5,
            Rank::FullHouse => 6,
            Rank::Quads => 7,
            Rank::StraightFlash => 8,
        }
    }

    /// Gives the place of the category in the list, 0 for the weakest.
    pub fn strength(&self) -> (s: u8)
        ensures
            s == self.level(),
    {
        match self {
            Rank::High => 0,
            Rank::OnePair => 1,
            Rank::TwoPair => 2,
            Rank::Trips => 3,
            Rank::Straight => 4,
            Rank::Flash => 5,
            Rank::FullHouse => 6,
            Rank::Quads => 7,
            Rank::StraightFlash => 8,
        }
    }
}

/// Whether a hand of category `rank` and order `order` beats one of category
/// `other_rank` and order `other_order`: the stronger category wins whatever
/// the orders are, and inside one category the larger order wins.
pub open spec fn beats(rank: Rank, order: nat, other_rank: Rank, other_order: nat) -> bool {
    rank.level() > other_rank.level() || (rank == other_rank && order > other_order)
}

/// Tells whether the first classified hand beats the second.
pub fn outranks(hand: (Rank, u32), other: (Rank, u32)) -> (r: bool)
    ensures
        r == beats(hand.0, hand.1 as nat, other.0, other.1 as nat),
{
    let level = hand.0.strength();
    let other_level = other.0.strength();
    level > other_level || (level == other_level && hand.1 > other.1)
}

/// Of two classified hands either one beats the other, or they have the same
/// category and the same order; no two of the three hold together.
pub proof fn lemma_beats_total(rank: Rank, order: nat, other_rank: Rank, other_order: nat)
    ensures
        beats(rank, order, other_rank, other_order) || beats(other_rank, other_order, rank, order)
            || (rank == other_rank && order == other_order),
        !(beats(rank, order, other_rank, other_order) && beats(
            other_rank,
            other_order,
            rank,
            order,
        )),
        !(beats(rank, order, other_rank, other_order) && rank == other_rank && order
            == other_order),
{
}

/// Beating is transitive: a hand that beats a second hand beats every hand
/// that the second beats.
pub proof fn lemma_beats_transitive(
    first: (Rank, nat),
    second: (Rank, nat),
    third: (Rank, nat),
)
    requires
        beats(first.0, first.1, second.0, second.1),
        beats(second.0, second.1, third.0, third.1),
    ensures
        beats(first.0, first.1, third.0, third.1),
{
}

} // verus!
