use vstd::prelude::*;

verus! {

use core::cmp::Ordering;

/// A total order on a type, together with an executable three-way comparison.
///
/// `leq` is the ordering relation that all contracts in this crate speak of.
/// The four proof obligations make `leq` a genuine total order, and
/// `compare_with` ties the executable comparison back to it.
pub trait TotalOrder: Sized {
    /// The ordering relation: `a.leq(b)` means `a` is at most `b`.
    spec fn leq(self, other: Self) -> bool;

    proof fn lemma_reflexive(a: Self)
        ensures
            a.leq(a),
    ;

    proof fn lemma_transitive(a: Self, b: Self, c: Self)
        requires
            a.leq(b),
            b.leq(c),
        ensures
            a.leq(c),
    ;

    proof fn lemma_antisymmetric(a: Self, b: Self)
        requires
            a.leq(b),
            b.leq(a),
        ensures
            a == b,
    ;

    proof fn lemma_total(a: Self, b: Self)
        ensures
            a.leq(b) || b.leq(a),
    ;

    /// Executable three-way comparison that agrees with `leq`.
    fn compare_with(&self, other: &Self) -> (o: Ordering)
        ensures
            match o {
                Ordering::Less => self.leq(*other) && *self != *other,
                Ordering::Equal => *self == *other,
                Ordering::Greater => other.leq(*self) && *self != *other,
            },
    ;
}

/// The strict relation induced by a total order.
pub open spec fn below<T: TotalOrder>(a: T, b: T) -> bool {
    a.leq(b) && a != b
}

impl TotalOrder for i64 {
    open spec fn leq(self, other: i64) -> bool {
        self <= other
    }

    proof fn lemma_reflexive(a: i64) {
    }

    proof fn lemma_transitive(a: i64, b: i64, c: i64) {
    }

    proof fn lemma_antisymmetric(a: i64, b: i64) {
    }

    proof fn lemma_total(a: i64, b: i64) {
    }

    fn compare_with(&self, other: &i64) -> (o: Ordering) {
        if *self < *other {
            Ordering::Less
        } else if *self == *other {
            Ordering::Equal
        } else {
            Ordering::Greater
        }
    }
}

impl TotalOrder for i32 {
    open spec fn leq(self, other: i32) -> bool {
        self <= other
    }

    proof fn lemma_reflexive(a: i32) {
    }

    proof fn lemma_transitive(a: i32, b: i32, c: i32) {
    }

    proof fn lemma_antisymmetric(a: i32, b: i32) {
    }

    proof fn lemma_total(a: i32, b: i32) {
    }

    fn compare_with(&self, other: &i32) -> (o: Ordering) {
        if *self < *other {
            Ordering::Less
        } else if *self == *other {
            Ordering::Equal
        } else {
            Ordering::Greater
        }
    }
}

} // verus!
