//! Small verified helpers over borrowed integer collections.

use vstd::pervasive::VecAdditionalExecFns;
use vstd::prelude::*;

verus! {

/// The mathematical sum of a sequence of machine integers.
pub open spec fn sum(s: Seq<i32>) -> int
    decreases s.len(),
{
    if s.len() == 0 {
        0
    } else {
        sum(s.drop_last()) + s.last()
    }
}

/// Sum a slice of integers.  Every partial sum must fit the result type;
/// on such inputs the result is exactly the mathematical sum.
pub fn sum_slice(slice: &[i32]) -> (r: i32)
    requires
        forall|i: int|
            0 <= i <= slice@.len() ==> i32::MIN <= sum(#[trigger] slice@.take(i)) <= i32::MAX,
    ensures
        r == sum(slice@),
{
    let n = slice.len();
    let mut acc: i32 = 0;
    let mut i: usize = 0;
    proof {
        assert(slice@.take(0) =~= Seq::<i32>::empty());
    }
    while i < n
        invariant
            i <= n,
            n == slice@.len(),
            forall|j: int|
                0 <= j <= slice@.len() ==> i32::MIN <= sum(#[trigger] slice@.take(j)) <= i32::MAX,
            acc == sum(slice@.take(i as int)),
        decreases n - i,
    {
        proof {
            assert(slice@.take(i as int + 1).drop_last() =~= slice@.take(i as int));
            assert(slice@.take(i as int + 1).last() == slice@[i as int]);
            assert(sum(slice@.take(i as int + 1)) == acc + slice@[i as int]);
        }
        acc = acc + slice[i];
        i += 1;
    }
    proof {
        assert(slice@.take(n as int) =~= slice@);
    }
    acc
}

/// Double every element of the vector in place.  Every element must stay
/// in range when doubled.
pub fn double_all(numbers: &mut Vec<i32>)
    requires
        forall|i: int|
            0 <= i < old(numbers)@.len() ==> i32::MIN / 2 <= (#[trigger] old(numbers)@[i])
                <= i32::MAX / 2,
    ensures
        final(numbers)@.len() == old(numbers)@.len(),
        forall|i: int|
            0 <= i < old(numbers)@.len() ==> (#[trigger] final(numbers)@[i]) == 2 * old(
                numbers,
            )@[i],
{
    let n = numbers.len();
    let mut i: usize = 0;
    while i < n
        invariant
            i <= n,
            n == numbers@.len() == old(numbers)@.len(),
            forall|j: int|
                0 <= j < old(numbers)@.len() ==> i32::MIN / 2 <= (#[trigger] old(numbers)@[j])
                    <= i32::MAX / 2,
            forall|j: int| 0 <= j < i ==> (#[trigger] numbers@[j]) == 2 * old(numbers)@[j],
            forall|j: int| i <= j < n ==> (#[trigger] numbers@[j]) == old(numbers)@[j],
        decreases n - i,
    {
        let value = numbers[i];
        numbers.set(i, value * 2);
        i += 1;
    }
}

/// The index of the largest element, or `None` on an empty slice.  Among
/// equal maxima the smallest index is returned.
pub fn find_max_index(numbers: &[i32]) -> (r: Option<usize>)
    ensures
        r is None <==> numbers@.len() == 0,
        r matches Some(i) ==> 0 <= i < numbers@.len() && (forall|j: int|
            0 <= j < numbers@.len() ==> (#[trigger] numbers@[j]) <= numbers@[i as int]) && (forall|j: int|
            0 <= j < i ==> (#[trigger] numbers@[j]) < numbers@[i as int]),
{
    let n = numbers.len();
    if n == 0 {
        return None;
    }
    let mut max_index: usize = 0;
    let mut i: usize = 0;
    while i < n
        invariant
            i <= n,
            n == numbers@.len(),
            max_index < n,
            forall|j: int| 0 <= j < i ==> (#[trigger] numbers@[j]) <= numbers@[max_index as int],
            forall|j: int| 0 <= j < max_index ==> (#[trigger] numbers@[j]) < numbers@[max_index as int],
            max_index < i || max_index == 0,
        decreases n - i,
    {
        if numbers[i] > numbers[max_index] {
            max_index = i;
        }
        i += 1;
    }
    Some(max_index)
}

} // verus!
