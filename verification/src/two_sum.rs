use vstd::prelude::*;

verus! {

/// Two distinct positions of `s` hold values that sum to `target`.
pub open spec fn has_pair(s: Seq<i64>, target: i64) -> bool {
    exists|i: int, j: int| 0 <= i < j < s.len() && s[i] + s[j] == target
}

/// Find two elements of `arr`, at distinct positions, that sum to `target`.
/// The result holds the two elements (the earlier position first) when such
/// a pair exists, and is empty when none does.
pub fn two_num_sum(arr: &Vec<i64>, target: i64) -> (r: Vec<i64>)
    ensures
        has_pair(arr@, target) ==> r@.len() == 2 && (exists|i: int, j: int|
            0 <= i < j < arr@.len() && arr@[i] == r@[0] && arr@[j] == r@[1] && arr@[i] + arr@[j]
                == target),
        !has_pair(arr@, target) ==> r@.len() == 0,
{
    let n = arr.len();
    let mut j: usize = 0;
    while j < n
        invariant
            n == arr@.len(),
            j <= n,
            forall|p: int, q: int| 0 <= p < q < j ==> arr@[p] + arr@[q] != target,
        decreases n - j,
    {
        let mut i: usize = 0;
        while i < j
            invariant
                n == arr@.len(),
                j < n,
                i <= j,
                forall|p: int| 0 <= p < i ==> arr@[p] + arr@[j as int] != target,
                forall|p: int, q: int| 0 <= p < q < j ==> arr@[p] + arr@[q] != target,
            decreases j - i,
        {
            if (arr[i] as i128) + (arr[j] as i128) == (target as i128) {
                let mut r: Vec<i64> = Vec::new();
                r.push(arr[i]);
                r.push(arr[j]);
                proof {
                    assert(arr@[i as int] + arr@[j as int] == target);
                    assert(has_pair(arr@, target));
                }
                return r;
            }
            i = i + 1;
        }
        j = j + 1;
    }
    Vec::new()
}

} // verus!
