//! The order of a hand: the numbers that break a tie, packed into one integer
//! with four bits each, the most significant first.

use crate::codec::{HAND_SIZE, NUMBER_NUM};
use vstd::arithmetic::power2::{lemma2_to64, lemma_pow2_adds, pow2};
use vstd::prelude::*;

verus! {

/// The number of bits of one field of an order.
pub const FIELD_BITS: u32 = 4;

/// The number of values that one field of an order can hold.
pub const FIELD_SPAN: u32 = 16;

/// The integer whose base-16 digits are `numbers`, the first being the most
/// significant.
pub open spec fn pack(numbers: Seq<u32>) -> nat
    decreases numbers.len(),
{
    if numbers.len() == 0 {
        0
    } else {
        pack(numbers.drop_last()) * (FIELD_SPAN as nat) + numbers.last() as nat
    }
}

/// Whether every number of the list fits in one field of an order.
pub open spec fn fits_fields(numbers: Seq<u32>) -> bool {
    forall|i: int| 0 <= i < numbers.len() ==> numbers[i] < FIELD_SPAN
}

/// Whether `a` and `b` have the same length, agree before place `i` and
/// differ at place `i`.
pub open spec fn differ_first_at(a: Seq<u32>, b: Seq<u32>, i: int) -> bool {
    &&& a.len() == b.len()
    &&& 0 <= i < a.len()
    &&& a[i] != b[i]
    &&& forall|j: int| 0 <= j < i ==> a[j] == b[j]
}

/// Whether `a` comes after `b` in lexicographic order: the lists have the
/// same length, and at the first place where they differ `a` holds the
/// larger number.
pub open spec fn lex_greater(a: Seq<u32>, b: Seq<u32>) -> bool {
    exists|i: int| #[trigger] differ_first_at(a, b, i) && a[i] > b[i]
}

/// A packed list of `n` numbers is below 16 to the power `n`.
pub proof fn lemma_pack_bound(numbers: Seq<u32>)
    requires
        fits_fields(numbers),
    ensures
        pack(numbers) < pow2(4 * numbers.len()),
    decreases numbers.len(),
{
    lemma2_to64();
    if numbers.len() > 0 {
        let front = numbers.drop_last();
        lemma_pack_bound(front);
        lemma_pow2_adds(4 * front.len(), 4);
        assert(pack(numbers) < pow2(4 * front.len()) * 16) by (nonlinear_arith)
            requires
                pack(numbers) == pack(front) * 16 + numbers.last(),
                pack(front) < pow2(4 * front.len()),
                numbers.last() < 16,
        ;
    }
}

/// Packs up to five card numbers into one order, the first number in the
/// most significant field.
pub fn create_order(num_list: &[u32]) -> (order: u32)
    requires
        num_list@.len() <= HAND_SIZE,
        forall|i: int| 0 <= i < num_list@.len() ==> num_list@[i] < NUMBER_NUM,
    ensures
        order == pack(num_list@),
{
    let mut value: u32 = 0;
    let mut i: usize = 0;
    while i < num_list.len()
        invariant
            i <= num_list@.len() <= HAND_SIZE,
            forall|k: int| 0 <= k < num_list@.len() ==> num_list@[k] < NUMBER_NUM,
            value == pack(num_list@.take(i as int)),
        decreases num_list@.len() - i,
    {
        let num = num_list[i];
        proof {
            let done = num_list@.take(i as int);
            lemma_pack_bound(done);
            lemma2_to64();
            assert(value < 0x1_0000) by {
                assert(done.len() <= 4);
                assert(pow2(4 * done.len()) <= 0x1_0000) by {
                    if done.len() == 0 {
                    } else if done.len() == 1 {
                    } else if done.len() == 2 {
                    } else if done.len() == 3 {
                    } else {
                    }
                }
            }
            assert((value << 4) | num == value * 16 + num) by (bit_vector)
                requires
                    value < 0x1_0000,
                    num < 16,
            ;
            assert(num_list@.take(i + 1).drop_last() =~= done);
        }
        value <<= FIELD_BITS;
        value |= num;
        i += 1;
    }
    proof {
        assert(num_list@.take(i as int) =~= num_list@);
    }
    value
}

/// Comparing two packed lists of the same length as integers is comparing
/// the lists in lexicographic order.
pub proof fn lemma_pack_lexicographic(a: Seq<u32>, b: Seq<u32>)
    requires
        a.len() == b.len(),
        fits_fields(a),
        fits_fields(b),
    ensures
        lex_greater(a, b) <==> pack(a) > pack(b),
        lex_greater(b, a) <==> pack(a) < pack(b),
        a =~= b <==> pack(a) == pack(b),
    decreases a.len(),
{
    if a.len() == 0 {
        assert(a =~= b);
        assert(!lex_greater(a, b));
        assert(!lex_greater(b, a));
    } else {
        let last = a.len() - 1;
        let a_front = a.drop_last();
        let b_front = b.drop_last();
        lemma_pack_lexicographic(a_front, b_front);
        if pack(a_front) > pack(b_front) {
            lemma_front_decides(a, b);
        } else if pack(a_front) < pack(b_front) {
            lemma_front_decides(b, a);
        } else {
            assert(a_front =~= b_front);
            assert forall|j: int| 0 <= j < last implies a[j] == b[j] by {
                assert(a[j] == a_front[j]);
                assert(b[j] == b_front[j]);
            }
            if a[last] > b[last] {
                assert(differ_first_at(a, b, last));
                lemma_lex_asymmetric(a, b);
            } else if a[last] < b[last] {
                assert(differ_first_at(b, a, last));
                lemma_lex_asymmetric(b, a);
            } else {
                assert(a =~= b);
                lemma_lex_irreflexive(a);
            }
        }
    }
}

/// A list does not come after itself.
proof fn lemma_lex_irreflexive(a: Seq<u32>)
    ensures
        !lex_greater(a, a),
{
}

/// If `a` comes after `b`, then `b` does not come after `a`, and the two
/// differ.
proof fn lemma_lex_asymmetric(a: Seq<u32>, b: Seq<u32>)
    requires
        lex_greater(a, b),
    ensures
        !lex_greater(b, a),
        !(a =~= b),
{
    let i = choose|i: int| #[trigger] differ_first_at(a, b, i) && a[i] > b[i];
    if lex_greater(b, a) {
        let k = choose|k: int| #[trigger] differ_first_at(b, a, k) && b[k] > a[k];
        if i < k {
            assert(b[i] == a[i]);
        } else if k < i {
            assert(a[k] == b[k]);
        }
    }
}

/// Where the lists without their last numbers already differ, `a` being the
/// later one, the whole lists compare the same way, as lists and packed.
proof fn lemma_front_decides(a: Seq<u32>, b: Seq<u32>)
    requires
        a.len() == b.len(),
        a.len() > 0,
        fits_fields(a),
        fits_fields(b),
        lex_greater(a.drop_last(), b.drop_last()),
        pack(a.drop_last()) > pack(b.drop_last()),
    ensures
        lex_greater(a, b),
        !lex_greater(b, a),
        !(a =~= b),
        pack(a) > pack(b),
{
    let a_front = a.drop_last();
    let b_front = b.drop_last();
    let i = choose|i: int| #[trigger] differ_first_at(a_front, b_front, i) && a_front[i] > b_front[i];
    assert forall|j: int| 0 <= j < i implies a[j] == b[j] by {
        assert(a[j] == a_front[j]);
        assert(b[j] == b_front[j]);
    }
    assert(a[i] == a_front[i]);
    assert(b[i] == b_front[i]);
    assert(differ_first_at(a, b, i));
    lemma_lex_asymmetric(a, b);
}

} // verus!
