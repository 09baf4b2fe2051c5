use vstd::prelude::*;

verus! {

use crate::sums::sum_to;
use crate::sums::lemma_sum_to_bounds;

/// Position `i` balances the array: the elements strictly before it sum to
/// the same value as the elements strictly after it.
pub open spec fn is_equilibrium(s: Seq<i64>, i: int) -> bool {
    0 <= i < s.len() && sum_to(s, i) == sum_to(s, s.len() as int) - sum_to(s, i + 1)
}

/// The smallest equilibrium index of `arr`, or `-1` when there is none.
pub fn equilibirum(arr: Vec<i64>) -> (r: i64)
    requires
        arr@.len() <= i64::MAX,
    ensures
        r == -1 ==> forall|i: int| 0 <= i < arr@.len() ==> !is_equilibrium(arr@, i),
        r != -1 ==> 0 <= r < arr@.len() && is_equilibrium(arr@, r as int) && (forall|i: int|
            0 <= i < r ==> !is_equilibrium(arr@, i)),
{
    if arr.is_empty() {
        return -1;
    }
    let n = arr.len();
    let mut total: i128 = 0;
    let mut j: usize = 0;
    while j < n
        invariant
            n == arr@.len(),
            j <= n,
            total as int == sum_to(arr@, j as int),
        decreases n - j,
    {
        proof {
            lemma_sum_to_bounds(arr@, 0, j as int);
            lemma_sum_to_bounds(arr@, 0, j as int + 1);
        }
        total = total + (arr[j] as i128);
        j = j + 1;
    }
    let mut left: i128 = 0;
    let mut idx: usize = 0;
    while idx < n
        invariant
            n == arr@.len(),
            arr@.len() <= i64::MAX,
            idx <= n,
            total as int == sum_to(arr@, n as int),
            left as int == sum_to(arr@, idx as int),
            forall|i: int| 0 <= i < idx ==> !is_equilibrium(arr@, i),
        decreases n - idx,
    {
        proof {
            lemma_sum_to_bounds(arr@, 0, idx as int);
            lemma_sum_to_bounds(arr@, 0, idx as int + 1);
            lemma_sum_to_bounds(arr@, idx as int, n as int);
            lemma_sum_to_bounds(arr@, idx as int + 1, n as int);
        }
        let item = arr[idx];
        let right: i128 = total - left - (item as i128);
        if right == left {
            return idx as i64;
        }
        left = left + (item as i128);
        idx = idx + 1;
    }
    -1
}

} // verus!
