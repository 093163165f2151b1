//! Sorting card numbers from the highest to the lowest.

use vstd::prelude::*;
use vstd::relations::{sorted_by, total_ordering};
use vstd::seq_lib::{group_to_multiset_ensures, lemma_sorted_unique};

verus! {

/// The relation "is not smaller than": a list sorted by it runs from the
/// largest number to the smallest.
pub open spec fn descending() -> spec_fn(u32, u32) -> bool {
    |x: u32, y: u32| x >= y
}

/// The numbers of `numbers`, from the largest to the smallest.
pub open spec fn sorted_descending(numbers: Seq<u32>) -> Seq<u32> {
    numbers.sort_by(descending())
}

/// A list that runs from the largest number to the smallest and holds each
/// number as often as `numbers` does is `numbers` sorted.
pub proof fn lemma_sorted_descending_unique(numbers: Seq<u32>, sorted: Seq<u32>)
    requires
        sorted_by(sorted, descending()),
        sorted.to_multiset() == numbers.to_multiset(),
    ensures
        sorted == sorted_descending(numbers),
{
    assert(total_ordering(descending()));
    numbers.lemma_sort_by_ensures(descending());
    lemma_sorted_unique(sorted, sorted_descending(numbers), descending());
}

/// Sorting keeps the length of the list and each number as often as before,
/// and the result runs from the largest number to the smallest.
pub proof fn lemma_sorted_descending_ensures(numbers: Seq<u32>)
    ensures
        sorted_descending(numbers).len() == numbers.len(),
        sorted_descending(numbers).to_multiset() == numbers.to_multiset(),
        forall|i: int, j: int|
            0 <= i <= j < numbers.len() ==> sorted_descending(numbers)[i] >= sorted_descending(
                numbers,
            )[j],
{
    broadcast use group_to_multiset_ensures;

    assert(total_ordering(descending()));
    numbers.lemma_sort_by_ensures(descending());
    let sorted = sorted_descending(numbers);
    assert(sorted.len() == sorted.to_multiset().len());
    assert(numbers.len() == numbers.to_multiset().len());
    assert forall|i: int, j: int| 0 <= i <= j < numbers.len() implies sorted[i] >= sorted[j] by {
        if i < j {
            assert(descending()(sorted[i], sorted[j]));
        }
    }
}

/// Sorts the numbers in place, from the largest to the smallest.
pub fn sort_descending<const N: usize>(numbers: &mut [u32; N])
    ensures
        final(numbers)@ == sorted_descending(old(numbers)@),
{
    let mut i: usize = 1;
    while i < N
        invariant
            1 <= i,
            numbers@.len() == N,
            numbers@.to_multiset() == old(numbers)@.to_multiset(),
            forall|p: int, q: int| 0 <= p < q < i && q < N ==> numbers@[p] >= numbers@[q],
        decreases N - i,
    {
        let mut j: usize = i;
        while j > 0 && numbers[j - 1] < numbers[j]
            invariant
                j <= i < N,
                numbers@.len() == N,
                numbers@.to_multiset() == old(numbers)@.to_multiset(),
                forall|p: int, q: int| 0 <= p < q <= i && q != j ==> numbers@[p] >= numbers@[q],
            decreases j,
        {
            let ghost before = numbers@;
            let left = numbers[j - 1];
            let right = numbers[j];
            numbers[j - 1] = right;
            numbers[j] = left;
            proof {
                broadcast use group_to_multiset_ensures;

                let middle = before.update(j - 1, right);
                assert(numbers@ == middle.update(j as int, left));
                assert(numbers@.to_multiset() =~= before.to_multiset());
            }
            j -= 1;
        }
        i += 1;
    }
    proof {
        assert(sorted_by(numbers@, descending())) by {
            assert forall|p: int, q: int| 0 <= p < q < numbers@.len() implies descending()(
                numbers@[p],
                numbers@[q],
            ) by {
                assert(numbers@[p] >= numbers@[q]);
            }
        }
        lemma_sorted_descending_unique(old(numbers)@, numbers@);
    }
}

} // verus!
