//! What holds of every classified hand: inside one category the order
//! follows the ranking of the game, and a stronger category wins whatever
//! the orders are.

use crate::codec::{card_suit, HAND_SIZE, NUMBER_NUM};
use crate::hand::{
    classify, hand_numbers, hand_suits, lemma_sorted_numbers_valid, number_counts,
    sorted_numbers, suit_counts, valid_hand, wheel, WHEEL_ORDER,
};
use crate::order::{lemma_pack_lexicographic, lex_greater, pack};
use crate::rank::{beats, Rank};
use crate::tally::{lemma_occurrences_of_five, occurrences};
use vstd::prelude::*;

verus! {

/// The number that exactly `times` cards of the hand have, where there is
/// one such number.
pub open spec fn number_held(hand: Seq<u32>, times: nat) -> u32 {
    choose|number: u32| number < NUMBER_NUM && occurrences(hand_numbers(hand), number) == times
}

/// The card that counts in a straight: the five where the ace plays below
/// the two, and the highest card of the hand otherwise.
pub open spec fn straight_high(hand: Seq<u32>) -> u32 {
    if sorted_numbers(hand) =~= wheel() {
        WHEEL_ORDER
    } else {
        sorted_numbers(hand)[0]
    }
}

/// Whether the rules of the game put hand `a` strictly above hand `b`, both
/// being of category `rank`. Straights go by the card that counts; four of a
/// kind by the number held four times, then by the fifth card; a full house
/// by the number held three times, then by the pair; every other category
/// card by card from the highest down.
pub open spec fn ranks_above(rank: Rank, a: Seq<u32>, b: Seq<u32>) -> bool {
    match rank {
        Rank::StraightFlash | Rank::Straight => straight_high(a) > straight_high(b),
        Rank::Quads => lex_greater(
            seq![number_held(a, 4), number_held(a, 1)],
            seq![number_held(b, 4), number_held(b, 1)],
        ),
        Rank::FullHouse => lex_greater(
            seq![number_held(a, 3), number_held(a, 2)],
            seq![number_held(b, 3), number_held(b, 2)],
        ),
        _ => lex_greater(sorted_numbers(a), sorted_numbers(b)),
    }
}

/// A suit has all five cards of a hand exactly when the five cards have the
/// same suit.
pub proof fn lemma_flush_is_one_suit(hand: Seq<u32>)
    requires
        valid_hand(hand),
    ensures
        suit_counts(hand).contains(HAND_SIZE as u32) <==> forall|i: int|
            0 <= i < HAND_SIZE ==> card_suit(#[trigger] hand[i]) == card_suit(hand[0]),
{
    let suits = hand_suits(hand);
    let counts = suit_counts(hand);
    assert forall|i: int| 0 <= i < HAND_SIZE implies suits[i] == card_suit(hand[i]) by {}
    if counts.contains(HAND_SIZE as u32) {
        let suit = choose|suit: int| 0 <= suit < counts.len() && counts[suit] == HAND_SIZE as u32;
        lemma_occurrences_of_five(suits, suit as u32);
    }
    if forall|i: int| 0 <= i < HAND_SIZE ==> card_suit(#[trigger] hand[i]) == card_suit(hand[0]) {
        let suit = card_suit(hand[0]);
        lemma_occurrences_of_five(suits, suit);
        assert(suits[1] == card_suit(hand[1]));
        assert(suits[2] == card_suit(hand[2]));
        assert(suits[3] == card_suit(hand[3]));
        assert(suits[4] == card_suit(hand[4]));
        assert(counts[suit as int] == HAND_SIZE as u32);
    }
}

/// The order of a four of a kind packs the number held four times and the
/// number of the fifth card.
pub proof fn lemma_quads_order(hand: Seq<u32>)
    requires
        valid_hand(hand),
        classify(hand).0 == Rank::Quads,
    ensures
        number_held(hand, 4) < NUMBER_NUM,
        number_held(hand, 1) < NUMBER_NUM,
        occurrences(hand_numbers(hand), number_held(hand, 4)) == 4,
        occurrences(hand_numbers(hand), number_held(hand, 1)) == 1,
        classify(hand).1 == pack(seq![number_held(hand, 4), number_held(hand, 1)]),
{
    let numbers = hand_numbers(hand);
    let counts = number_counts(hand);
    counts.index_of_first_ensures(4);
    counts.index_of_first_ensures(1);
    let quad = counts.index_of_first(4)->0 as u32;
    let kicker = counts.index_of_first(1)->0 as u32;
    lemma_occurrences_of_five(numbers, quad);
    lemma_occurrences_of_five(numbers, kicker);
    assert(occurrences(numbers, quad) == 4);
    assert(occurrences(numbers, kicker) == 1);
    let held_four = number_held(hand, 4);
    let held_one = number_held(hand, 1);
    lemma_occurrences_of_five(numbers, held_four);
    lemma_occurrences_of_five(numbers, held_one);
    assert(held_four == quad);
    assert(held_one == kicker);
}

/// The order of a full house packs the number held three times and the
/// number of the pair.
pub proof fn lemma_fullhouse_order(hand: Seq<u32>)
    requires
        valid_hand(hand),
        classify(hand).0 == Rank::FullHouse,
    ensures
        number_held(hand, 3) < NUMBER_NUM,
        number_held(hand, 2) < NUMBER_NUM,
        occurrences(hand_numbers(hand), number_held(hand, 3)) == 3,
        occurrences(hand_numbers(hand), number_held(hand, 2)) == 2,
        classify(hand).1 == pack(seq![number_held(hand, 3), number_held(hand, 2)]),
{
    let numbers = hand_numbers(hand);
    let counts = number_counts(hand);
    counts.index_of_first_ensures(3);
    counts.index_of_first_ensures(2);
    let triple = counts.index_of_first(3)->0 as u32;
    let pair = counts.index_of_first(2)->0 as u32;
    lemma_occurrences_of_five(numbers, triple);
    lemma_occurrences_of_five(numbers, pair);
    assert(occurrences(numbers, triple) == 3);
    assert(occurrences(numbers, pair) == 2);
    let held_three = number_held(hand, 3);
    let held_two = number_held(hand, 2);
    lemma_occurrences_of_five(numbers, held_three);
    lemma_occurrences_of_five(numbers, held_two);
    assert(held_three == triple);
    assert(held_two == pair);
}

/// Of two hands of one category other than `High`, the one that the rules of
/// the game put above the other has the strictly larger order.
pub proof fn lemma_order_monotonic(a: Seq<u32>, b: Seq<u32>)
    requires
        valid_hand(a),
        valid_hand(b),
        classify(a).0 == classify(b).0,
        classify(a).0 != Rank::High,
        ranks_above(classify(a).0, a, b),
    ensures
        classify(a).1 > classify(b).1,
{
    lemma_sorted_numbers_valid(a);
    lemma_sorted_numbers_valid(b);
    match classify(a).0 {
        Rank::Quads => {
            lemma_quads_order(a);
            lemma_quads_order(b);
            lemma_pack_lexicographic(
                seq![number_held(a, 4), number_held(a, 1)],
                seq![number_held(b, 4), number_held(b, 1)],
            );
        },
        Rank::FullHouse => {
            lemma_fullhouse_order(a);
            lemma_fullhouse_order(b);
            lemma_pack_lexicographic(
                seq![number_held(a, 3), number_held(a, 2)],
                seq![number_held(b, 3), number_held(b, 2)],
            );
        },
        Rank::Flash => {
            lemma_pack_lexicographic(sorted_numbers(a), sorted_numbers(b));
        },
        _ => {},
    }
}

/// A straight flush, a four of a kind or a full house beats every flush and
/// every straight, and is beaten by none, whatever the orders are.
pub proof fn lemma_category_dominance(a: Seq<u32>, b: Seq<u32>)
    requires
        valid_hand(a),
        valid_hand(b),
        classify(a).0 == Rank::StraightFlash || classify(a).0 == Rank::Quads || classify(a).0
            == Rank::FullHouse,
        classify(b).0 == Rank::Flash || classify(b).0 == Rank::Straight,
    ensures
        beats(classify(a).0, classify(a).1, classify(b).0, classify(b).1),
        !beats(classify(b).0, classify(b).1, classify(a).0, classify(a).1),
{
}

/// The classifier gives one of six categories: the three between `High` and
/// `Straight` are never given.
pub proof fn lemma_categories_given(hand: Seq<u32>)
    ensures
        classify(hand).0 != Rank::OnePair,
        classify(hand).0 != Rank::TwoPair,
        classify(hand).0 != Rank::Trips,
        classify(hand).0 == Rank::High ==> classify(hand).1 == 0,
{
}

} // verus!
