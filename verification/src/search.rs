use vstd::prelude::*;

verus! {

use core::cmp::Ordering;
use vstd::std_specs::cmp::PartialEqSpec;
use crate::order::TotalOrder;

/// Sorted in non-decreasing order under the total order of `T`.
pub open spec fn sorted_ascending<T: TotalOrder>(s: Seq<T>) -> bool {
    forall|i: int, j: int| 0 <= i <= j < s.len() ==> s[i].leq(s[j])
}

/// Binary search over a sequence sorted ascending: the index of an element
/// equal to `target`, or `-1` when no element matches.
pub fn binary_search<T: TotalOrder>(arr: &Vec<T>, target: &T) -> (r: i64)
    requires
        sorted_ascending(arr@),
        arr@.len() <= i64::MAX,
    ensures
        r == -1 ==> forall|i: int| 0 <= i < arr@.len() ==> arr@[i] != *target,
        r != -1 ==> 0 <= r < arr@.len() && arr@[r as int] == *target,
{
    let mut lo: usize = 0;
    let mut hi: usize = arr.len();
    while lo < hi
        invariant
            lo <= hi <= arr@.len(),
            arr@.len() <= i64::MAX,
            sorted_ascending(arr@),
            forall|i: int| 0 <= i < arr@.len() && arr@[i] == *target ==> lo <= i < hi,
        decreases hi - lo,
    {
        let mid = lo + (hi - lo) / 2;
        match target.compare_with(&arr[mid]) {
            Ordering::Equal => {
                return mid as i64;
            },
            Ordering::Less => {
                proof {
                    assert forall|i: int| mid <= i < arr@.len() implies arr@[i] != *target by {
                        if arr@[i] == *target {
                            T::lemma_antisymmetric(*target, arr@[mid as int]);
                        }
                    }
                }
                hi = mid;
            },
            Ordering::Greater => {
                proof {
                    assert forall|i: int| 0 <= i <= mid implies arr@[i] != *target by {
                        if arr@[i] == *target {
                            T::lemma_antisymmetric(*target, arr@[mid as int]);
                        }
                    }
                }
                lo = mid + 1;
            },
        }
    }
    -1
}

/// Binary search returning the narrower index type; otherwise exactly
/// `binary_search`.
pub fn binary_search_new<T: TotalOrder>(arr: &Vec<T>, target: &T) -> (r: i32)
    requires
        sorted_ascending(arr@),
        arr@.len() <= i32::MAX,
    ensures
        r == -1 ==> forall|i: int| 0 <= i < arr@.len() ==> arr@[i] != *target,
        r != -1 ==> 0 <= r < arr@.len() && arr@[r as int] == *target,
{
    let r = binary_search(arr, target);
    r as i32
}

/// Scan left to right: the first index whose element equals `target`, or
/// `-1` when none does.
pub fn linear_search<T: PartialEq>(arr: &Vec<T>, target: &T) -> (r: i32)
    requires
        T::obeys_eq_spec(),
        arr@.len() <= i32::MAX,
    ensures
        r == -1 ==> forall|i: int| 0 <= i < arr@.len() ==> !target.eq_spec(&arr@[i]),
        r != -1 ==> 0 <= r < arr@.len() && target.eq_spec(&arr@[r as int]) && (forall|i: int|
            0 <= i < r ==> !target.eq_spec(&arr@[i])),
{
    let mut i: usize = 0;
    while i < arr.len()
        invariant
            T::obeys_eq_spec(),
            arr@.len() <= i32::MAX,
            i <= arr@.len(),
            forall|p: int| 0 <= p < i ==> !target.eq_spec(&arr@[p]),
        decreases arr@.len() - i,
    {
        if *target == arr[i] {
            return i as i32;
        }
        i = i + 1;
    }
    -1
}

} // verus!
