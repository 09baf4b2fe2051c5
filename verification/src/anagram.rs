use vstd::prelude::*;

verus! {

use vstd::string::StrSliceExecFns;

/// How many positions of `s` hold the character `c`.
pub open spec fn count_of(s: Seq<char>, c: char) -> nat
    decreases s.len(),
{
    if s.len() == 0 {
        0
    } else {
        count_of(s.drop_last(), c) + (if s.last() == c {
            1nat
        } else {
            0nat
        })
    }
}

/// Exact character-multiset permutation: every character occurs equally
/// often in both sequences, case- and whitespace-sensitive.
pub open spec fn same_char_counts(a: Seq<char>, b: Seq<char>) -> bool {
    forall|c: char| count_of(a, c) == count_of(b, c)
}

/// A character occurs in `s` exactly when its count is positive.
proof fn lemma_count_positive(s: Seq<char>, c: char)
    ensures
        count_of(s, c) > 0 <==> s.contains(c),
    decreases s.len(),
{
    if s.len() > 0 {
        lemma_count_positive(s.drop_last(), c);
        if s.contains(c) {
            let p = choose|p: int| 0 <= p < s.len() && s[p] == c;
            if p < s.len() - 1 {
                assert(s.drop_last()[p] == c);
            }
        }
        if s.drop_last().contains(c) {
            let p = choose|p: int| 0 <= p < s.drop_last().len() && s.drop_last()[p] == c;
            assert(s[p] == c);
        }
    }
}

/// Count the occurrences of `c` among the characters of `s`.
fn count_char(s: &str, c: char) -> (r: usize)
    ensures
        r as nat == count_of(s@, c),
{
    let n = s.unicode_len();
    let mut r: usize = 0;
    let mut i: usize = 0;
    proof {
        assert(s@.take(0) =~= Seq::<char>::empty());
    }
    while i < n
        invariant
            n == s@.len(),
            i <= n,
            r <= i,
            r as nat == count_of(s@.take(i as int), c),
        decreases n - i,
    {
        let ci = s.get_char(i);
        proof {
            assert(s@.take(i as int + 1).drop_last() =~= s@.take(i as int));
            assert(s@.take(i as int + 1).last() == s@[i as int]);
        }
        if ci == c {
            r = r + 1;
        }
        i = i + 1;
    }
    proof {
        assert(s@.take(n as int) =~= s@);
    }
    r
}

/// Report whether `first` and `second` are exact character-multiset
/// permutations of one another.
pub fn is_anagram(first: &str, second: &str) -> (r: bool)
    ensures
        r == same_char_counts(first@, second@),
{
    let n1 = first.unicode_len();
    let n2 = second.unicode_len();
    let mut i: usize = 0;
    while i < n1
        invariant
            n1 == first@.len(),
            n2 == second@.len(),
            i <= n1,
            forall|p: int|
                0 <= p < i ==> count_of(first@, #[trigger] first@[p]) == count_of(
                    second@,
                    first@[p],
                ),
        decreases n1 - i,
    {
        let c = first.get_char(i);
        if count_char(first, c) != count_char(second, c) {
            return false;
        }
        i = i + 1;
    }
    let mut k: usize = 0;
    while k < n2
        invariant
            n1 == first@.len(),
            n2 == second@.len(),
            k <= n2,
            forall|p: int|
                0 <= p < n1 ==> count_of(first@, #[trigger] first@[p]) == count_of(
                    second@,
                    first@[p],
                ),
            forall|p: int|
                0 <= p < k ==> count_of(first@, #[trigger] second@[p]) == count_of(
                    second@,
                    second@[p],
                ),
        decreases n2 - k,
    {
        let c = second.get_char(k);
        if count_char(first, c) != count_char(second, c) {
            return false;
        }
        k = k + 1;
    }
    proof {
        assert forall|c: char| count_of(first@, c) == count_of(second@, c) by {
            lemma_count_positive(first@, c);
            lemma_count_positive(second@, c);
            if first@.contains(c) {
                let p = choose|p: int| 0 <= p < first@.len() && first@[p] == c;
                assert(count_of(first@, first@[p]) == count_of(second@, first@[p]));
            } else if second@.contains(c) {
                let p = choose|p: int| 0 <= p < second@.len() && second@[p] == c;
                assert(count_of(first@, second@[p]) == count_of(second@, second@[p]));
            }
        }
    }
    true
}

} // verus!
