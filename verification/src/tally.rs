//! Tables that count how often each suit or number occurs in a hand, and the
//! search for a count in such a table.

use vstd::prelude::*;
use vstd::seq_lib::group_to_multiset_ensures;

verus! {

/// How often `value` occurs in `items`.
pub open spec fn occurrences(items: Seq<u32>, value: u32) -> nat {
    items.to_multiset().count(value)
}

/// The table with `bins` entries whose entry `value` tells how often `value`
/// occurs in `items`.
pub open spec fn tally(items: Seq<u32>, bins: nat) -> Seq<u32> {
    Seq::new(bins, |value: int| occurrences(items, value as u32) as u32)
}

/// 1 where the two values are equal, 0 where they differ.
pub open spec fn hit(item: u32, value: u32) -> nat {
    if item == value {
        1
    } else {
        0
    }
}

/// No value occurs in the empty list.
pub proof fn lemma_occurrences_empty(value: u32)
    ensures
        occurrences(Seq::<u32>::empty(), value) == 0,
{
    broadcast use group_to_multiset_ensures;

    assert(Seq::<u32>::empty().to_multiset().len() == 0);
}

/// A list with one more item holds that item once more, and every other
/// value as often as before.
pub proof fn lemma_occurrences_push(items: Seq<u32>, item: u32, value: u32)
    ensures
        occurrences(items.push(item), value) == occurrences(items, value) + hit(item, value),
{
    broadcast use group_to_multiset_ensures;

}

/// No value occurs more often than the list is long.
pub proof fn lemma_occurrences_bound(items: Seq<u32>, value: u32)
    ensures
        occurrences(items, value) <= items.len(),
    decreases items.len(),
{
    if items.len() == 0 {
        assert(items =~= Seq::<u32>::empty());
        lemma_occurrences_empty(value);
    } else {
        let front = items.drop_last();
        assert(items =~= front.push(items.last()));
        lemma_occurrences_push(front, items.last(), value);
        lemma_occurrences_bound(front, value);
    }
}

/// In a list of five items a value occurs as often as it is found at the
/// five places.
pub proof fn lemma_occurrences_of_five(items: Seq<u32>, value: u32)
    requires
        items.len() == 5,
    ensures
        occurrences(items, value) == hit(items[0], value) + hit(items[1], value) + hit(
            items[2],
            value,
        ) + hit(items[3], value) + hit(items[4], value),
{
    let none = Seq::<u32>::empty();
    let one = none.push(items[0]);
    let two = one.push(items[1]);
    let three = two.push(items[2]);
    let four = three.push(items[3]);
    assert(items =~= four.push(items[4]));
    lemma_occurrences_empty(value);
    lemma_occurrences_push(none, items[0], value);
    lemma_occurrences_push(one, items[1], value);
    lemma_occurrences_push(two, items[2], value);
    lemma_occurrences_push(three, items[3], value);
    lemma_occurrences_push(four, items[4], value);
}

/// The table of no items holds zero everywhere.
pub proof fn lemma_tally_empty(bins: nat)
    ensures
        tally(Seq::<u32>::empty(), bins).len() == bins,
        forall|value: int| 0 <= value < bins ==> tally(Seq::<u32>::empty(), bins)[value] == 0,
{
    assert forall|value: int| 0 <= value < bins implies tally(Seq::<u32>::empty(), bins)[value]
        == 0 by {
        lemma_occurrences_empty(value as u32);
    }
}

/// One more item raises its own entry of the table by one and leaves the
/// other entries as they were.
pub proof fn lemma_tally_push(items: Seq<u32>, item: u32, bins: nat)
    requires
        item < bins <= u32::MAX,
        items.len() < u32::MAX,
    ensures
        tally(items, bins)[item as int] < u32::MAX,
        tally(items.push(item), bins) == tally(items, bins).update(
            item as int,
            (tally(items, bins)[item as int] + 1) as u32,
        ),
{
    let before = tally(items, bins);
    let after = tally(items.push(item), bins);
    assert forall|value: int| 0 <= value < bins implies after[value] == before.update(
        item as int,
        (before[item as int] + 1) as u32,
    )[value] by {
        lemma_occurrences_push(items, item, value as u32);
        lemma_occurrences_bound(items, value as u32);
    }
    lemma_occurrences_bound(items, item);
    assert(after =~= before.update(item as int, (before[item as int] + 1) as u32));
}

/// Finds the first place of the table that holds `count`.
pub fn position(table: &[u32], count: u32) -> (r: Option<usize>)
    ensures
        match r {
            Some(place) => {
                &&& place < table@.len()
                &&& table@[place as int] == count
                &&& forall|k: int| 0 <= k < place ==> table@[k] != count
                &&& table@.index_of_first(count) == Some(place as int)
            },
            None => {
                &&& forall|k: int| 0 <= k < table@.len() ==> table@[k] != count
                &&& table@.index_of_first(count) is None
            },
        },
{
    let mut i: usize = 0;
    while i < table.len()
        invariant
            i <= table@.len(),
            forall|k: int| 0 <= k < i ==> table@[k] != count,
        decreases table@.len() - i,
    {
        if table[i] == count {
            proof {
                assert(table@.contains(count));
                table@.index_of_first_ensures(count);
            }
            return Some(i);
        }
        i += 1;
    }
    proof {
        table@.index_of_first_ensures(count);
    }
    None
}

} // verus!
