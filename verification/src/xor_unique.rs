use vstd::prelude::*;

verus! {

/// The cumulative bitwise exclusive-or of all elements.
pub open spec fn xor_all(s: Seq<i32>) -> i32
    decreases s.len(),
{
    if s.len() == 0 {
        0
    } else {
        xor_all(s.drop_last()) ^ s.last()
    }
}

/// Fold the array with exclusive-or: values paired off an even number of
/// times cancel, so when exactly one value occurs an odd number of times,
/// that value is the result.
pub fn find_unique(arr: Vec<i32>) -> (r: i32)
    ensures
        r == xor_all(arr@),
{
    let mut result: i32 = 0;
    let mut i: usize = 0;
    proof {
        assert(arr@.take(0) =~= Seq::<i32>::empty());
    }
    while i < arr.len()
        invariant
            i <= arr@.len(),
            result == xor_all(arr@.take(i as int)),
        decreases arr@.len() - i,
    {
        proof {
            assert(arr@.take(i as int + 1).drop_last() =~= arr@.take(i as int));
            assert(arr@.take(i as int + 1).last() == arr@[i as int]);
        }
        result = result ^ arr[i];
        i = i + 1;
    }
    proof {
        assert(arr@.take(arr@.len() as int) =~= arr@);
    }
    result
}

} // verus!
