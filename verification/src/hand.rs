//! The classifier: from five card codes to the category of the hand and the
//! order that breaks ties inside that category.

use crate::codec::{
    card_number, card_suit, decode, valid_code, HAND_SIZE, NUMBER_NUM, SUIT_NUM,
};
use crate::error::CardError;
use crate::order::{create_order, pack};
use crate::rank::Rank;
use crate::sorting::{lemma_sorted_descending_ensures, sort_descending, sorted_descending};
use crate::tally::{
    lemma_occurrences_of_five, lemma_tally_empty, lemma_tally_push, position, tally,
};
use vstd::prelude::*;
use vstd::seq_lib::group_to_multiset_ensures;

verus! {

/// The order of the straight from the five down to the ace, in which the
/// five is the card that counts.
pub const WHEEL_ORDER: u32 = 3;

/// Whether `hand` holds five codes of cards of the deck.
pub open spec fn valid_hand(hand: Seq<u32>) -> bool {
    hand.len() == HAND_SIZE && forall|i: int| 0 <= i < hand.len() ==> valid_code(hand[i])
}

/// The suits of the cards of the hand, card by card.
pub open spec fn hand_suits(hand: Seq<u32>) -> Seq<u32> {
    hand.map_values(|code: u32| card_suit(code))
}

/// The numbers of the cards of the hand, card by card.
pub open spec fn hand_numbers(hand: Seq<u32>) -> Seq<u32> {
    hand.map_values(|code: u32| card_number(code))
}

/// How many cards of the hand each suit has.
pub open spec fn suit_counts(hand: Seq<u32>) -> Seq<u32> {
    tally(hand_suits(hand), SUIT_NUM as nat)
}

/// How many cards of the hand each number has.
pub open spec fn number_counts(hand: Seq<u32>) -> Seq<u32> {
    tally(hand_numbers(hand), NUMBER_NUM as nat)
}

/// The numbers of the cards of the hand, from the highest to the lowest.
pub open spec fn sorted_numbers(hand: Seq<u32>) -> Seq<u32> {
    sorted_descending(hand_numbers(hand))
}

/// The numbers of the straight in which the ace plays below the two: ace,
/// five, four, three, two.
pub open spec fn wheel() -> Seq<u32> {
    seq![12u32, 3u32, 2u32, 1u32, 0u32]
}

/// Whether each number of the list is one less than the number before it.
pub open spec fn is_run(sorted: Seq<u32>) -> bool {
    forall|i: int| 0 <= i < sorted.len() ==> #[trigger] sorted[i] == sorted[0] - i
}

/// The order of the straight that the sorted numbers form, if they form one:
/// that of the wheel, or else the highest number of the run.
pub open spec fn straight_order(sorted: Seq<u32>) -> Option<nat> {
    if sorted =~= wheel() {
        Some(WHEEL_ORDER as nat)
    } else if is_run(sorted) {
        Some(sorted[0] as nat)
    } else {
        None
    }
}

/// The order of the flush, if one suit has all five cards: the sorted
/// numbers, packed.
pub open spec fn flush_order(suit_counts: Seq<u32>, sorted: Seq<u32>) -> Option<nat> {
    if suit_counts.contains(HAND_SIZE as u32) {
        Some(pack(sorted))
    } else {
        None
    }
}

/// The order of the four of a kind, if a number has four cards and another
/// has one: the number with four, then the number with one.
pub open spec fn quads_order(number_counts: Seq<u32>) -> Option<nat> {
    match (number_counts.index_of_first(4), number_counts.index_of_first(1)) {
        (Some(quad), Some(kicker)) => Some(pack(seq![quad as u32, kicker as u32])),
        _ => None,
    }
}

/// The order of the full house, if a number has three cards and another has
/// two: the number with three, then the number with two.
pub open spec fn fullhouse_order(number_counts: Seq<u32>) -> Option<nat> {
    match (number_counts.index_of_first(3), number_counts.index_of_first(2)) {
        (Some(triple), Some(pair)) => Some(pack(seq![triple as u32, pair as u32])),
        _ => None,
    }
}

/// The category and the order of a hand. The categories are tried from the
/// strongest down and the first that fits is taken; a hand that fits none of
/// them is `High` with order 0.
pub open spec fn classify(hand: Seq<u32>) -> (Rank, nat) {
    let sorted = sorted_numbers(hand);
    let straight = straight_order(sorted);
    let flush = flush_order(suit_counts(hand), sorted);
    let quads = quads_order(number_counts(hand));
    let fullhouse = fullhouse_order(number_counts(hand));
    if straight is Some && flush is Some {
        (Rank::StraightFlash, straight->0)
    } else if quads is Some {
        (Rank::Quads, quads->0)
    } else if fullhouse is Some {
        (Rank::FullHouse, fullhouse->0)
    } else if flush is Some {
        (Rank::Flash, flush->0)
    } else if straight is Some {
        (Rank::Straight, straight->0)
    } else {
        (Rank::High, 0)
    }
}

/// Whether `found`, an order as the machine holds it, is the order `order`.
pub open spec fn same_order(found: Option<u32>, order: Option<nat>) -> bool {
    match found {
        Some(value) => order == Some(value as nat),
        None => order is None,
    }
}

/// Looks for a straight in five numbers sorted from the highest down, and
/// gives its order.
pub fn find_straight(nl_sorted: &[u32]) -> (r: Option<u32>)
    requires
        nl_sorted@.len() == HAND_SIZE,
    ensures
        same_order(r, straight_order(nl_sorted@)),
{
    if nl_sorted[0] == 12 && nl_sorted[1] == 3 && nl_sorted[2] == 2 && nl_sorted[3] == 1
        && nl_sorted[4] == 0 {
        assert(nl_sorted@ =~= wheel());
        return Some(WHEEL_ORDER);
    }
    assert(!(nl_sorted@ =~= wheel()));
    let start = nl_sorted[0];
    let mut i: usize = 0;
    while i < HAND_SIZE
        invariant
            i <= HAND_SIZE,
            nl_sorted@.len() == HAND_SIZE,
            start == nl_sorted@[0],
            !(nl_sorted@ =~= wheel()),
            forall|k: int| 0 <= k < i ==> nl_sorted@[k] == start - k,
        decreases HAND_SIZE - i,
    {
        if start < i as u32 || nl_sorted[i] != start - i as u32 {
            assert(nl_sorted@[i as int] != start - i);
            return None;
        }
        i += 1;
    }
    Some(start)
}

/// Looks for a flush in the table of suit counts, and gives its order: the
/// sorted numbers, packed.
pub fn find_flash(sb: &[u32], nl_sorted: &[u32]) -> (r: Option<u32>)
    requires
        sb@.len() == SUIT_NUM,
        nl_sorted@.len() == HAND_SIZE,
        forall|i: int| 0 <= i < nl_sorted@.len() ==> nl_sorted@[i] < NUMBER_NUM,
    ensures
        same_order(r, flush_order(sb@, nl_sorted@)),
{
    proof {
        sb@.index_of_first_ensures(HAND_SIZE as u32);
    }
    match position(sb, HAND_SIZE as u32) {
        Some(_) => Some(create_order(nl_sorted)),
        None => None,
    }
}

/// Looks for a four of a kind in the table of number counts, and gives its
/// order.
pub fn find_quads(nb: &[u32]) -> (r: Option<u32>)
    requires
        nb@.len() == NUMBER_NUM,
        nb@.contains(4) ==> nb@.contains(1),
    ensures
        same_order(r, quads_order(nb@)),
{
    proof {
        nb@.index_of_first_ensures(4);
        nb@.index_of_first_ensures(1);
    }
    match (position(nb, 4), position(nb, 1)) {
        (Some(quad), Some(kicker)) => Some(order_of_two(quad as u32, kicker as u32)),
        _ => None,
    }
}

/// Looks for a full house in the table of number counts, and gives its
/// order.
pub fn find_fullhouse(nb: &[u32]) -> (r: Option<u32>)
    requires
        nb@.len() == NUMBER_NUM,
    ensures
        same_order(r, fullhouse_order(nb@)),
{
    proof {
        nb@.index_of_first_ensures(3);
        nb@.index_of_first_ensures(2);
    }
    match (position(nb, 3), position(nb, 2)) {
        (Some(triple), Some(pair)) => Some(order_of_two(triple as u32, pair as u32)),
        _ => None,
    }
}

/// Packs two numbers, the first in the more significant field.
fn order_of_two(first: u32, second: u32) -> (order: u32)
    requires
        first < NUMBER_NUM,
        second < NUMBER_NUM,
    ensures
        order == pack(seq![first, second]),
{
    let pair = [first, second];
    assert(pair@ =~= seq![first, second]);
    create_order(&pair)
}

/// The numbers of a hand of cards of the deck, sorted, are five numbers of
/// the deck.
pub proof fn lemma_sorted_numbers_valid(hand: Seq<u32>)
    requires
        valid_hand(hand),
    ensures
        sorted_numbers(hand).len() == HAND_SIZE,
        forall|i: int| 0 <= i < HAND_SIZE ==> sorted_numbers(hand)[i] < NUMBER_NUM,
{
    broadcast use group_to_multiset_ensures;

    let numbers = hand_numbers(hand);
    let sorted = sorted_numbers(hand);
    lemma_sorted_descending_ensures(numbers);
    assert forall|i: int| 0 <= i < HAND_SIZE implies sorted[i] < NUMBER_NUM by {
        assert(sorted.contains(sorted[i]));
        assert(sorted.to_multiset().count(sorted[i]) > 0);
        assert(numbers.contains(sorted[i]));
        let k = choose|k: int| 0 <= k < numbers.len() && numbers[k] == sorted[i];
        assert(numbers[k] == card_number(hand[k]));
    }
}

/// In a hand in which a number has four cards, another number has one.
pub proof fn lemma_quads_have_kicker(hand: Seq<u32>)
    requires
        valid_hand(hand),
        number_counts(hand).contains(4),
    ensures
        number_counts(hand).contains(1),
{
    let numbers = hand_numbers(hand);
    let counts = number_counts(hand);
    let quad = choose|quad: int| 0 <= quad < counts.len() && counts[quad] == 4;
    lemma_occurrences_of_five(numbers, quad as u32);
    let k = if numbers[0] != quad {
        0int
    } else if numbers[1] != quad {
        1int
    } else if numbers[2] != quad {
        2int
    } else if numbers[3] != quad {
        3int
    } else {
        4int
    };
    assert(numbers[k] != quad);
    assert(numbers[k] == card_number(hand[k]));
    lemma_occurrences_of_five(numbers, numbers[k]);
    assert(counts[numbers[k] as int] == 1);
}

/// Gives the category of a hand of five cards and the order that breaks ties
/// inside that category. A hand of another size is refused with
/// `WrongHandSize`, and a hand of five codes of which one is no card of the
/// deck with `OutOfRange`.
pub fn calc_hand(hand: &[u32]) -> (r: Result<(Rank, u32), CardError>)
    ensures
        valid_hand(hand@) <==> r is Ok,
        r matches Ok(found) ==> classify(hand@) == (found.0, found.1 as nat),
        r matches Err(e) ==> e == if hand@.len() != HAND_SIZE {
            CardError::WrongHandSize
        } else {
            CardError::OutOfRange
        },
{
    if hand.len() != HAND_SIZE {
        return Err(CardError::WrongHandSize);
    }
    let mut sb = [0u32; 4];
    let mut nb = [0u32; 13];
    let mut nl_sorted = [0u32; HAND_SIZE];
    proof {
        lemma_tally_empty(SUIT_NUM as nat);
        lemma_tally_empty(NUMBER_NUM as nat);
        assert(hand@.take(0) =~= Seq::<u32>::empty());
        assert(hand_suits(hand@.take(0)) =~= Seq::<u32>::empty());
        assert(hand_numbers(hand@.take(0)) =~= Seq::<u32>::empty());
        assert(sb@ =~= suit_counts(hand@.take(0)));
        assert(nb@ =~= number_counts(hand@.take(0)));
    }
    let mut i: usize = 0;
    while i < HAND_SIZE
        invariant
            i <= HAND_SIZE,
            hand@.len() == HAND_SIZE,
            forall|k: int| 0 <= k < i ==> valid_code(hand@[k]),
            sb@ == suit_counts(hand@.take(i as int)),
            nb@ == number_counts(hand@.take(i as int)),
            forall|k: int| 0 <= k < i ==> nl_sorted@[k] == card_number(hand@[k]),
        decreases HAND_SIZE - i,
    {
        let (s, n) = match decode(hand[i]) {
            Ok(card) => card,
            Err(e) => {
                return Err(e);
            },
        };
        proof {
            let seen = hand@.take(i as int);
            assert(hand@.take(i + 1) =~= seen.push(hand@[i as int]));
            assert(hand_suits(seen.push(hand@[i as int])) =~= hand_suits(seen).push(s));
            assert(hand_numbers(seen.push(hand@[i as int])) =~= hand_numbers(seen).push(n));
            lemma_tally_push(hand_suits(seen), s, SUIT_NUM as nat);
            lemma_tally_push(hand_numbers(seen), n, NUMBER_NUM as nat);
        }
        sb[s as usize] = sb[s as usize] + 1;
        nb[n as usize] = nb[n as usize] + 1;
        nl_sorted[i] = n;
        i += 1;
    }
    proof {
        assert(hand@.take(HAND_SIZE as int) =~= hand@);
        assert(nl_sorted@ =~= hand_numbers(hand@));
        lemma_sorted_numbers_valid(hand@);
        if nb@.contains(4) {
            lemma_quads_have_kicker(hand@);
        }
    }
    sort_descending(&mut nl_sorted);

    let flash = find_flash(&sb, &nl_sorted);
    let straight = find_straight(&nl_sorted);

    if let Some(order) = straight {
        if flash.is_some() {
            return Ok((Rank::StraightFlash, order));
        }
    }
    if let Some(order) = find_quads(&nb) {
        return Ok((Rank::Quads, order));
    }
    if let Some(order) = find_fullhouse(&nb) {
        return Ok((Rank::FullHouse, order));
    }
    if let Some(order) = flash {
        return Ok((Rank::Flash, order));
    }
    if let Some(order) = straight {
        return Ok((Rank::Straight, order));
    }
    Ok((Rank::High, 0))
}

} // verus!
