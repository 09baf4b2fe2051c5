use vstd::prelude::*;

verus! {

use core::cmp::Ordering;
use crate::order::TotalOrder;
use crate::order::below;
use crate::node::Node;
use crate::node::seq_of;
use crate::node::wf_opt;
use crate::node::lemma_in_order_contains;

/// An ordered binary search tree holding a set of keys.
///
/// The tree owns its root exclusively; every contract speaks of the
/// in-order key sequence `self@` and the ordering invariant
/// `self.well_formed()`.
pub struct Tree<T: TotalOrder> {
    root: Option<Box<Node<T>>>,
}

/// What a single insertion does to the in-order key sequence: afterwards the
/// sequence holds exactly the old keys plus `v`; a key already present
/// leaves the sequence untouched; a new key grows it by exactly one slot.
pub open spec fn insert_outcome<T: TotalOrder>(before: Seq<T>, v: T, after: Seq<T>) -> bool {
    &&& (forall|x: T| after.contains(x) <==> (before.contains(x) || x == v))
    &&& (before.contains(v) ==> after == before)
    &&& (!before.contains(v) ==> after.len() == before.len() + 1)
}

/// Each key stands strictly below every later one.
pub open spec fn strictly_ascending<T: TotalOrder>(s: Seq<T>) -> bool {
    forall|i: int, j: int| 0 <= i < j < s.len() ==> below(s[i], s[j])
}

/// The mutating interface of an ordered container: insertion that keeps the
/// ordering invariant and silently ignores keys already present.
pub trait TreeFunctions<T: TotalOrder> {
    /// The ordering invariant of the container.
    spec fn ordered(&self) -> bool;

    /// The keys of the container, in ascending order.
    spec fn elems(&self) -> Seq<T>;

    /// Insert `val`; a duplicate leaves the container unchanged.
    fn add(&mut self, val: T)
        requires
            old(self).ordered(),
        ensures
            final(self).ordered(),
            insert_outcome(old(self).elems(), val, final(self).elems()),
    ;
}

impl<T: TotalOrder> View for Tree<T> {
    type V = Seq<T>;

    open spec fn view(&self) -> Seq<T> {
        seq_of(self.spec_root())
    }
}

impl<T: TotalOrder> Tree<T> {
    /// The optional root node.
    pub closed spec fn spec_root(self) -> Option<Box<Node<T>>> {
        self.root
    }

    /// The ordering invariant: at every node, all keys on the left are
    /// strictly below the node's key and all keys on the right strictly
    /// above it.
    pub open spec fn well_formed(self) -> bool {
        wf_opt(self.spec_root())
    }

    /// An empty tree.
    pub fn new() -> (r: Self)
        ensures
            r@ == Seq::<T>::empty(),
            r.well_formed(),
    {
        Self { root: None }
    }

    /// A tree whose root is a single node holding `value`.
    pub fn with_root(value: T) -> (r: Self)
        ensures
            r@ == seq![value],
            r.well_formed(),
    {
        Self { root: Node::new(value) }
    }

    /// A shared borrow of the root, for callers that walk the node shape.
    pub fn root(&self) -> (r: &Option<Box<Node<T>>>)
        ensures
            *r == self.spec_root(),
    {
        &self.root
    }

    /// Insert `val` at the slot the ordering assigns to it; a key already
    /// present is silently rejected and the tree is left untouched.
    pub fn insert(&mut self, val: T)
        requires
            old(self).well_formed(),
        ensures
            final(self).well_formed(),
            insert_outcome(old(self)@, val, final(self)@),
    {
        insert_opt(&mut self.root, val);
    }

    /// Descend from the root by comparisons; report whether `val` is a key
    /// of the tree.
    pub fn lookup(&self, val: T) -> (r: bool)
        requires
            self.well_formed(),
        ensures
            r == self@.contains(val),
    {
        let mut cur: &Option<Box<Node<T>>> = &self.root;
        loop
            invariant
                wf_opt(*cur),
                self@.contains(val) <==> seq_of(*cur).contains(val),
            decreases seq_of(*cur).len(),
        {
            match cur {
                None => {
                    return false;
                },
                Some(n) => {
                    match val.compare_with(&n.data) {
                        Ordering::Equal => {
                            proof {
                                lemma_in_order_contains(**n, val);
                            }
                            return true;
                        },
                        Ordering::Less => {
                            proof {
                                lemma_in_order_contains(**n, val);
                                if seq_of(n.right).contains(val) {
                                    T::lemma_antisymmetric(val, n.data);
                                }
                            }
                            cur = &n.left;
                        },
                        Ordering::Greater => {
                            proof {
                                lemma_in_order_contains(**n, val);
                                if seq_of(n.left).contains(val) {
                                    T::lemma_antisymmetric(val, n.data);
                                }
                            }
                            cur = &n.right;
                        },
                    }
                },
            }
        }
    }
}

impl<T: TotalOrder> TreeFunctions<T> for Tree<T> {
    open spec fn ordered(&self) -> bool {
        self.well_formed()
    }

    open spec fn elems(&self) -> Seq<T> {
        self@
    }

    fn add(&mut self, val: T) {
        self.insert(val);
    }
}

impl<T: TotalOrder> Default for Tree<T> {
    /// The empty tree.
    fn default() -> (r: Self)
        ensures
            r@ == Seq::<T>::empty(),
            r.well_formed(),
    {
        Tree::new()
    }
}

impl<T: TotalOrder + Copy> Tree<T> {
    /// All keys of the tree, in ascending order; the tree is not changed.
    pub fn in_order_traversal(&self) -> (r: Vec<T>)
        ensures
            r@ == self@,
    {
        let mut out: Vec<T> = Vec::new();
        push_in_order(&self.root, &mut out);
        proof {
            assert(out@ =~= self@);
        }
        out
    }
}

/// Gather the keys of `node`, in symmetric order, onto the end of `out`.
fn push_in_order<T: TotalOrder + Copy>(node: &Option<Box<Node<T>>>, out: &mut Vec<T>)
    ensures
        final(out)@ == old(out)@ + seq_of(*node),
    decreases node,
{
    match node {
        None => {
            proof {
                assert(old(out)@ + seq_of(*node) =~= old(out)@);
            }
        },
        Some(n) => {
            push_in_order(&n.left, out);
            out.push(n.data);
            push_in_order(&n.right, out);
            proof {
                assert(out@ =~= old(out)@ + seq_of(*node));
            }
        },
    }
}

/// Ordering invariant: the in-order sequence of a well-formed tree is
/// strictly ascending, and hence free of duplicates.
pub proof fn lemma_in_order_ascending<T: TotalOrder>(t: Tree<T>)
    requires
        t.well_formed(),
    ensures
        strictly_ascending(t@),
        t@.no_duplicates(),
{
    lemma_wf_ascending(t.spec_root());
    lemma_ascending_no_duplicates(t@);
}

/// Cardinality: the in-order sequence of a well-formed tree is as long as
/// its set of keys, so its length counts the distinct keys inserted.
pub proof fn lemma_traversal_counts_distinct<T: TotalOrder>(t: Tree<T>)
    requires
        t.well_formed(),
    ensures
        t@.len() == t@.to_set().len(),
{
    lemma_in_order_ascending(t);
    t@.unique_seq_to_set();
}

/// No duplicates: inserting a key already present leaves the in-order
/// sequence exactly as it was.
pub proof fn lemma_insert_duplicate_unchanged<T: TotalOrder>(before: Seq<T>, v: T, after: Seq<T>)
    requires
        before.contains(v),
        insert_outcome(before, v, after),
    ensures
        after == before,
{
}

/// Idempotence: inserting the same key twice yields the same in-order
/// sequence as inserting it once.
pub proof fn lemma_insert_idempotent<T: TotalOrder>(
    start: Seq<T>,
    v: T,
    once: Seq<T>,
    twice: Seq<T>,
)
    requires
        insert_outcome(start, v, once),
        insert_outcome(once, v, twice),
    ensures
        twice == once,
{
    assert(once.contains(v));
}

/// Lookup correctness, positive half: right after an insertion the inserted
/// key is among the keys, so `lookup` must report it.
pub proof fn lemma_insert_then_contains<T: TotalOrder>(before: Seq<T>, v: T, after: Seq<T>)
    requires
        insert_outcome(before, v, after),
    ensures
        after.contains(v),
{
    assert(after.contains(v) <==> (before.contains(v) || v == v));
}

/// Lookup correctness, negative half: a key that is absent and is not the
/// one being inserted stays absent, so `lookup` keeps reporting false.
pub proof fn lemma_insert_keeps_absent<T: TotalOrder>(
    before: Seq<T>,
    v: T,
    after: Seq<T>,
    w: T,
)
    requires
        insert_outcome(before, v, after),
        !before.contains(w),
        w != v,
    ensures
        !after.contains(w),
{
}

/// Cardinality, per step: an insertion adds exactly the new key to the set
/// of keys, growing the sequence only when the key is new.
pub proof fn lemma_insert_cardinality<T: TotalOrder>(before: Seq<T>, v: T, after: Seq<T>)
    requires
        insert_outcome(before, v, after),
    ensures
        after.to_set() == before.to_set().insert(v),
        before.contains(v) ==> after.len() == before.len(),
        !before.contains(v) ==> after.len() == before.len() + 1,
{
    assert(after.to_set() =~= before.to_set().insert(v));
}

/// A strictly ascending sequence never repeats a key.
proof fn lemma_ascending_no_duplicates<T: TotalOrder>(s: Seq<T>)
    requires
        strictly_ascending(s),
    ensures
        s.no_duplicates(),
{
    assert forall|i: int, j: int|
        0 <= i < s.len() && 0 <= j < s.len() && i != j implies s[i] != s[j] by {
        if i < j {
            assert(below(s[i], s[j]));
        } else {
            assert(below(s[j], s[i]));
        }
    }
}

/// Well-formedness makes the in-order sequence strictly ascending.
proof fn lemma_wf_ascending<T: TotalOrder>(node: Option<Box<Node<T>>>)
    requires
        wf_opt(node),
    ensures
        strictly_ascending(seq_of(node)),
    decreases node,
{
    match node {
        None => {},
        Some(n) => {
            lemma_wf_ascending(n.left);
            lemma_wf_ascending(n.right);
            let l = seq_of(n.left);
            let r = seq_of(n.right);
            let d = n.data;
            let s = seq_of(node);
            assert(s == l + seq![d] + r);
            assert forall|i: int, j: int| 0 <= i < j < s.len() implies below(s[i], s[j]) by {
                if j < l.len() {
                    assert(below(l[i], l[j]));
                } else if i < l.len() && j == l.len() {
                    assert(l.contains(l[i]));
                } else if i < l.len() && j > l.len() {
                    let y = r[j - l.len() - 1];
                    assert(l.contains(l[i]));
                    assert(r.contains(y));
                    T::lemma_transitive(l[i], d, y);
                    if l[i] == y {
                        T::lemma_antisymmetric(l[i], d);
                    }
                } else if i == l.len() {
                    let y = r[j - l.len() - 1];
                    assert(r.contains(y));
                } else {
                    assert(below(r[i - l.len() - 1], r[j - l.len() - 1]));
                }
            }
        },
    }
}

/// Insert `val` into an optional subtree, keeping it well formed.
fn insert_opt<T: TotalOrder>(node: &mut Option<Box<Node<T>>>, val: T)
    requires
        wf_opt(*old(node)),
    ensures
        wf_opt(*final(node)),
        insert_outcome(seq_of(*old(node)), val, seq_of(*final(node))),
    decreases *old(node),
{
    match node.take() {
        None => {
            *node = Node::new(val);
            proof {
                assert(seq_of(*old(node)) =~= Seq::<T>::empty());
                assert forall|x: T|
                    seq_of(*node).contains(x) <==> (seq_of(*old(node)).contains(x) || x
                        == val) by {
                    assert(seq![val][0] == val);
                }
            }
        },
        Some(mut boxed) => {
            proof {
                assert(*old(node) == Some(boxed));
                assert(boxed.well_formed());
            }
            match val.compare_with(&boxed.data) {
                Ordering::Equal => {
                    proof {
                        lemma_in_order_contains(*boxed, val);
                        assert(boxed.in_order().contains(val));
                    }
                    *node = Some(boxed);
                },
                Ordering::Less => {
                    let ghost boxed0 = *boxed;
                    insert_opt(&mut boxed.left, val);
                    proof {
                        let b1 = *boxed;
                        assert forall|x: T|
                            b1.in_order().contains(x) <==> (boxed0.in_order().contains(x) || x
                                == val) by {
                            lemma_in_order_contains(b1, x);
                            lemma_in_order_contains(boxed0, x);
                        }
                        assert forall|x: T| seq_of(b1.left).contains(x) implies below(
                            x,
                            b1.data,
                        ) by {
                            if x != val {
                                assert(seq_of(boxed0.left).contains(x));
                            }
                        }
                        assert(b1.well_formed());
                        if boxed0.in_order().contains(val) {
                            lemma_in_order_contains(boxed0, val);
                            if seq_of(boxed0.right).contains(val) {
                                T::lemma_antisymmetric(val, boxed0.data);
                            }
                            assert(seq_of(boxed0.left).contains(val));
                            assert(b1.in_order() == boxed0.in_order());
                        } else {
                            lemma_in_order_contains(boxed0, val);
                            assert(!seq_of(boxed0.left).contains(val));
                        }
                    }
                    *node = Some(boxed);
                },
                Ordering::Greater => {
                    let ghost boxed0 = *boxed;
                    insert_opt(&mut boxed.right, val);
                    proof {
                        let b1 = *boxed;
                        assert forall|x: T|
                            b1.in_order().contains(x) <==> (boxed0.in_order().contains(x) || x
                                == val) by {
                            lemma_in_order_contains(b1, x);
                            lemma_in_order_contains(boxed0, x);
                        }
                        assert forall|x: T| seq_of(b1.right).contains(x) implies below(
                            b1.data,
                            x,
                        ) by {
                            if x != val {
                                assert(seq_of(boxed0.right).contains(x));
                            }
                        }
                        assert(b1.well_formed());
                        if boxed0.in_order().contains(val) {
                            lemma_in_order_contains(boxed0, val);
                            if seq_of(boxed0.left).contains(val) {
                                T::lemma_antisymmetric(val, boxed0.data);
                            }
                            assert(seq_of(boxed0.right).contains(val));
                            assert(b1.in_order() == boxed0.in_order());
                        } else {
                            lemma_in_order_contains(boxed0, val);
                            assert(!seq_of(boxed0.right).contains(val));
                        }
                    }
                    *node = Some(boxed);
                },
            }
        },
    }
}

} // verus!
