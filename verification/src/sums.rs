use vstd::prelude::*;

verus! {

/// The sum of the first `k` elements of `s`, as a mathematical integer.
pub open spec fn sum_to(s: Seq<i64>, k: int) -> int
    decreases k,
{
    if k <= 0 || s.len() < k {
        0
    } else {
        sum_to(s, k - 1) + s[k - 1]
    }
}

/// A block of consecutive elements sums to at least `i64::MIN` and at most
/// `i64::MAX` per element.
pub proof fn lemma_sum_to_bounds(s: Seq<i64>, a: int, b: int)
    requires
        0 <= a <= b <= s.len(),
    ensures
        (b - a) * (i64::MIN as int) <= sum_to(s, b) - sum_to(s, a) <= (b - a) * (i64::MAX as int),
    decreases b - a,
{
    if b > a {
        lemma_sum_to_bounds(s, a, b - 1);
        assert((b - a) * (i64::MIN as int) == (b - 1 - a) * (i64::MIN as int) + (
        i64::MIN as int)) by (nonlinear_arith);
        assert((b - a) * (i64::MAX as int) == (b - 1 - a) * (i64::MAX as int) + (
        i64::MAX as int)) by (nonlinear_arith);
    }
}

/// When every element lies in `[1, hi]`, a prefix sum lies between its
/// length and its length times `hi`.
pub proof fn lemma_sum_to_range(s: Seq<i64>, hi: int, k: int)
    requires
        0 <= k <= s.len(),
        forall|i: int| 0 <= i < s.len() ==> 1 <= #[trigger] s[i] <= hi,
    ensures
        k <= sum_to(s, k) <= k * hi,
    decreases k,
{
    if k > 0 {
        lemma_sum_to_range(s, hi, k - 1);
        assert(sum_to(s, k) == sum_to(s, k - 1) + s[k - 1]);
        assert(1 <= s[k - 1] <= hi);
        assert(k * hi == (k - 1) * hi + hi) by (nonlinear_arith);
    } else {
        assert(k * hi == 0) by (nonlinear_arith)
            requires
                k == 0,
        ;
    }
}

} // verus!
