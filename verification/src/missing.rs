use vstd::prelude::*;

verus! {

use crate::sums::sum_to;
use crate::sums::lemma_sum_to_range;

/// Two sequences that agree position by position up to `k` have the same
/// prefix sum there.
proof fn lemma_sum_to_agree(a: Seq<i64>, b: Seq<i64>, k: int)
    requires
        0 <= k,
        k <= a.len(),
        k <= b.len(),
        forall|j: int| 0 <= j < k ==> a[j] == b[j],
    ensures
        sum_to(a, k) == sum_to(b, k),
    decreases k,
{
    if k > 0 {
        lemma_sum_to_agree(a, b, k - 1);
    }
}

/// Taking one element out of a sequence takes exactly its value out of the
/// sum.
proof fn lemma_sum_to_remove(s: Seq<i64>, i: int)
    requires
        0 <= i < s.len(),
    ensures
        sum_to(s.remove(i), s.len() - 1) == sum_to(s, s.len() as int) - s[i],
    decreases s.len(),
{
    let len = s.len() as int;
    s.remove_ensures(i);
    if i == len - 1 {
        lemma_sum_to_agree(s.remove(i), s, len - 1);
    } else {
        let t = s.take(len - 1);
        assert(t.remove(i) =~= s.remove(i).take(len - 2));
        lemma_sum_to_remove(t, i);
        lemma_sum_to_agree(t, s, len - 1);
        lemma_sum_to_agree(t.remove(i), s.remove(i), len - 2);
        assert(s.remove(i)[len - 2] == s[len - 1]);
    }
}

/// Removing a position from a duplicate-free sequence keeps it duplicate
/// free and takes exactly the removed value out of the membership.
proof fn lemma_remove_membership(s: Seq<i64>, i: int)
    requires
        s.no_duplicates(),
        0 <= i < s.len(),
    ensures
        s.remove(i).no_duplicates(),
        forall|k: i64| s.remove(i).contains(k) <==> (s.contains(k) && k != s[i]),
{
    let s2 = s.remove(i);
    s.remove_ensures(i);
    assert forall|p: int, q: int|
        0 <= p < s2.len() && 0 <= q < s2.len() && p != q implies s2[p] != s2[q] by {
        let p0 = if p < i {
            p
        } else {
            p + 1
        };
        let q0 = if q < i {
            q
        } else {
            q + 1
        };
        assert(s2[p] == s[p0] && s2[q] == s[q0]);
    }
    assert forall|k: i64| s2.contains(k) <==> (s.contains(k) && k != s[i]) by {
        if s2.contains(k) {
            let p = choose|p: int| 0 <= p < s2.len() && s2[p] == k;
            let p0 = if p < i {
                p
            } else {
                p + 1
            };
            assert(s[p0] == k);
        }
        if s.contains(k) && k != s[i] {
            let p0 = choose|p0: int| 0 <= p0 < s.len() && s[p0] == k;
            if p0 < i {
                assert(s2[p0] == k);
            } else {
                assert(s2[p0 - 1] == k);
            }
        }
    }
}

/// Pigeonhole: a duplicate-free sequence of values from `1..=b` has at most
/// `b` elements.
proof fn lemma_pigeonhole(s: Seq<i64>, b: int)
    requires
        0 <= b,
        s.no_duplicates(),
        forall|i: int| 0 <= i < s.len() ==> 1 <= #[trigger] s[i] <= b,
    ensures
        s.len() <= b,
    decreases b,
{
    if b == 0 {
        if s.len() > 0 {
            assert(1 <= s[0] <= 0);
        }
    } else if s.contains(b as i64) {
        let i = choose|i: int| 0 <= i < s.len() && s[i] == b as i64;
        lemma_remove_membership(s, i);
        s.remove_ensures(i);
        let s2 = s.remove(i);
        assert forall|j: int| 0 <= j < s2.len() implies 1 <= #[trigger] s2[j] <= b - 1 by {
            let j0 = if j < i {
                j
            } else {
                j + 1
            };
            assert(s2[j] == s[j0]);
            assert(s2.contains(s2[j]));
        }
        lemma_pigeonhole(s2, b - 1);
    } else {
        assert forall|i: int| 0 <= i < s.len() implies 1 <= #[trigger] s[i] <= b - 1 by {
            assert(s.contains(s[i]));
        }
        lemma_pigeonhole(s, b - 1);
    }
}

/// The saturated case: `b` distinct values from `1..=b` are all of
/// `1..=b`, and they sum to the triangle number of `b`.
proof fn lemma_full_range(s: Seq<i64>, b: int)
    requires
        0 <= b <= i64::MAX,
        s.len() == b,
        s.no_duplicates(),
        forall|i: int| 0 <= i < s.len() ==> 1 <= #[trigger] s[i] <= b,
    ensures
        sum_to(s, b) == b * (b + 1) / 2,
        forall|k: i64| 1 <= k <= b ==> s.contains(k),
    decreases b,
{
    if b == 0 {
        assert(b * (b + 1) / 2 == 0) by (nonlinear_arith)
            requires
                b == 0,
        ;
    } else {
        if !s.contains(b as i64) {
            assert forall|i: int| 0 <= i < s.len() implies 1 <= #[trigger] s[i] <= b - 1 by {
                assert(s.contains(s[i]));
            }
            lemma_pigeonhole(s, b - 1);
            assert(false);
        }
        let i = choose|i: int| 0 <= i < s.len() && s[i] == b as i64;
        lemma_remove_membership(s, i);
        lemma_sum_to_remove(s, i);
        s.remove_ensures(i);
        let s2 = s.remove(i);
        assert forall|j: int| 0 <= j < s2.len() implies 1 <= #[trigger] s2[j] <= b - 1 by {
            let j0 = if j < i {
                j
            } else {
                j + 1
            };
            assert(s2[j] == s[j0]);
            assert(s2.contains(s2[j]));
        }
        lemma_full_range(s2, b - 1);
        assert((b - 1) * b / 2 + b == b * (b + 1) / 2) by (nonlinear_arith);
        assert forall|k: i64| 1 <= k <= b implies s.contains(k) by {
            if k != b as i64 {
                assert(s2.contains(k));
            }
        }
    }
}

/// The sum trick is right: for `n - 1` distinct values drawn from `1..=n`,
/// the triangle number of `n` minus their sum is the one value of `1..=n`
/// that is not among them.
proof fn lemma_missing_value(s: Seq<i64>, n: int)
    requires
        1 <= n <= i64::MAX,
        s.len() == n - 1,
        s.no_duplicates(),
        forall|i: int| 0 <= i < s.len() ==> 1 <= #[trigger] s[i] <= n,
    ensures
        1 <= n * (n + 1) / 2 - sum_to(s, s.len() as int) <= n,
        !s.contains((n * (n + 1) / 2 - sum_to(s, s.len() as int)) as i64),
        forall|k: i64|
            1 <= k <= n && k as int != n * (n + 1) / 2 - sum_to(s, s.len() as int)
                ==> s.contains(k),
    decreases n,
{
    let len = n - 1;
    let m = n * (n + 1) / 2 - sum_to(s, len);
    if s.contains(n as i64) {
        let i = choose|i: int| 0 <= i < s.len() && s[i] == n as i64;
        lemma_remove_membership(s, i);
        lemma_sum_to_remove(s, i);
        s.remove_ensures(i);
        let s2 = s.remove(i);
        assert forall|j: int| 0 <= j < s2.len() implies 1 <= #[trigger] s2[j] <= n - 1 by {
            let j0 = if j < i {
                j
            } else {
                j + 1
            };
            assert(s2[j] == s[j0]);
            assert(s2.contains(s2[j]));
        }
        lemma_missing_value(s2, n - 1);
        assert((n - 1) * n / 2 + n == n * (n + 1) / 2) by (nonlinear_arith);
        assert(sum_to(s2, n - 2) == sum_to(s, len) - n);
        let m2 = (n - 1) * n / 2 - sum_to(s2, n - 2);
        assert(m2 == m);
        assert forall|k: i64| 1 <= k <= n && k as int != m implies s.contains(k) by {
            if k as int <= n - 1 {
                assert(s2.contains(k));
            }
        }
    } else {
        assert forall|i: int| 0 <= i < s.len() implies 1 <= #[trigger] s[i] <= n - 1 by {
            assert(s.contains(s[i]));
        }
        lemma_full_range(s, n - 1);
        assert((n - 1) * n / 2 + n == n * (n + 1) / 2) by (nonlinear_arith);
        assert(m == n);
    }
}

/// The missing value by the sum trick: with `n` one more than the length
/// and the elements `n - 1` distinct values drawn from `1..=n`, the
/// triangle number of `n` minus their sum is the one value of `1..=n` that
/// is not among them.
pub fn missing_element(arr: Vec<i64>) -> (r: i64)
    requires
        (arr@.len() + 1) * (arr@.len() + 2) <= i64::MAX,
        forall|i: int| 0 <= i < arr@.len() ==> 1 <= #[trigger] arr@[i] <= arr@.len() + 1,
        arr@.no_duplicates(),
    ensures
        r == (arr@.len() + 1) * (arr@.len() + 2) / 2 - sum_to(arr@, arr@.len() as int),
        1 <= r <= arr@.len() + 1,
        !arr@.contains(r),
        forall|k: i64| 1 <= k <= arr@.len() + 1 && k != r ==> arr@.contains(k),
{
    proof {
        assert(arr@.len() as int + 1 <= (arr@.len() + 1) * (arr@.len() + 2)) by (nonlinear_arith);
        lemma_missing_value(arr@, arr@.len() as int + 1);
    }
    let len = arr.len();
    let n: i128 = (len as i128) + 1;
    let expected: i128 = (n * (n + 1)) / 2;
    let mut sum: i128 = 0;
    let mut j: usize = 0;
    while j < len
        invariant
            len == arr@.len(),
            (arr@.len() + 1) * (arr@.len() + 2) <= i64::MAX,
            forall|i: int| 0 <= i < arr@.len() ==> 1 <= #[trigger] arr@[i] <= arr@.len() + 1,
            j <= len,
            n == len + 1,
            sum as int == sum_to(arr@, j as int),
        decreases len - j,
    {
        proof {
            lemma_sum_to_range(arr@, arr@.len() as int + 1, j as int + 1);
            assert((j + 1) * (arr@.len() + 1) <= (arr@.len() + 1) * (arr@.len()
                + 2)) by (nonlinear_arith)
                requires
                    0 <= j < arr@.len(),
            ;
        }
        sum = sum + (arr[j] as i128);
        j = j + 1;
    }
    proof {
        lemma_sum_to_range(arr@, arr@.len() as int + 1, len as int);
        assert((len as int) * (arr@.len() + 1) <= (arr@.len() + 1) * (arr@.len()
            + 2)) by (nonlinear_arith)
            requires
                len == arr@.len(),
        ;
    }
    (expected - sum) as i64
}

} // verus!
