//! Verified algorithm exercises around an ordered binary search tree:
//! insertion, lookup and in-order traversal with their ordering laws,
//! together with linear and binary search, two-sum, equilibrium index,
//! missing element, anagram, odd-one-out and bracket-nesting utilities.

pub mod order;
pub mod node;
pub mod tree;

pub mod anagram;
pub mod brackets;
pub mod equilibrium;
pub mod missing;
pub mod search;
pub mod sums;
pub mod two_sum;
pub mod xor_unique;
