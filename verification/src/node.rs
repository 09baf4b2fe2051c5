use vstd::prelude::*;

verus! {

use crate::order::TotalOrder;
use crate::order::below;

/// One key of a binary search tree together with its two optional,
/// exclusively owned subtrees.
pub struct Node<T: TotalOrder> {
    pub data: T,
    pub left: Option<Box<Node<T>>>,
    pub right: Option<Box<Node<T>>>,
}

/// The keys of an optional subtree, in symmetric (left, root, right) order.
pub open spec fn seq_of<T: TotalOrder>(node: Option<Box<Node<T>>>) -> Seq<T>
    decreases node,
{
    match node {
        None => Seq::empty(),
        Some(n) => n.in_order(),
    }
}

/// Ordering well-formedness of an optional subtree.
pub open spec fn wf_opt<T: TotalOrder>(node: Option<Box<Node<T>>>) -> bool
    decreases node,
{
    match node {
        None => true,
        Some(n) => n.well_formed(),
    }
}

impl<T: TotalOrder> Node<T> {
    /// The keys of the subtree rooted here, in symmetric order.
    pub open spec fn in_order(self) -> Seq<T>
        decreases self,
    {
        seq_of(self.left) + seq![self.data] + seq_of(self.right)
    }

    /// Every key on the left is strictly below `data`, every key on the
    /// right strictly above, and both subtrees are themselves well formed.
    pub open spec fn well_formed(self) -> bool
        decreases self,
    {
        &&& (forall|x: T| #[trigger] seq_of(self.left).contains(x) ==> below(x, self.data))
        &&& (forall|x: T| #[trigger] seq_of(self.right).contains(x) ==> below(self.data, x))
        &&& wf_opt(self.left)
        &&& wf_opt(self.right)
    }

    /// A fresh leaf holding `data`, with both children absent.
    pub fn new(data: T) -> (r: Option<Box<Self>>)
        ensures
            r matches Some(n) && n.data == data && n.left is None && n.right is None,
            seq_of(r) == seq![data],
            wf_opt(r),
    {
        let leaf = Self { data, left: None, right: None };
        proof {
            assert(leaf.in_order() =~= seq![data]);
            assert(seq_of(leaf.left) =~= Seq::<T>::empty());
            assert(seq_of(leaf.right) =~= Seq::<T>::empty());
            assert(leaf.well_formed());
        }
        Some(Box::new(leaf))
    }
}

/// Membership in a concatenation is membership in either part.
pub(crate) proof fn lemma_concat_contains<T>(a: Seq<T>, b: Seq<T>, x: T)
    ensures
        (a + b).contains(x) <==> (a.contains(x) || b.contains(x)),
{
    if a.contains(x) {
        let i = choose|i: int| 0 <= i < a.len() && a[i] == x;
        assert((a + b)[i] == x);
    }
    if b.contains(x) {
        let i = choose|i: int| 0 <= i < b.len() && b[i] == x;
        assert((a + b)[a.len() + i] == x);
    }
    if (a + b).contains(x) {
        let i = choose|i: int| 0 <= i < (a + b).len() && (a + b)[i] == x;
        if i < a.len() {
            assert(a[i] == x);
        } else {
            assert(b[i - a.len()] == x);
        }
    }
}

/// Membership in a one-element sequence is equality with that element.
pub(crate) proof fn lemma_singleton_contains<T>(v: T, x: T)
    ensures
        seq![v].contains(x) <==> x == v,
{
    assert(seq![v][0] == v);
}

/// The in-order sequence of a node holds a key exactly when the left
/// subtree, the node itself, or the right subtree holds it.
pub(crate) proof fn lemma_in_order_contains<T: TotalOrder>(n: Node<T>, x: T)
    ensures
        n.in_order().contains(x) <==> (seq_of(n.left).contains(x) || x == n.data || seq_of(
            n.right,
        ).contains(x)),
{
    lemma_concat_contains(seq_of(n.left) + seq![n.data], seq_of(n.right), x);
    lemma_concat_contains(seq_of(n.left), seq![n.data], x);
    lemma_singleton_contains(n.data, x);
}

} // verus!
