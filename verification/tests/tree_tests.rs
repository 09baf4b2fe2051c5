use algokit::node::Node;
use algokit::tree::Tree;
use algokit::tree::TreeFunctions;

#[test]
fn scenario_mixed_inserts() {
    let mut t: Tree<i64> = Tree::new();
    t.insert(5);
    t.insert(3);
    t.insert(8);
    t.insert(3);
    t.insert(1);
    assert_eq!(t.in_order_traversal(), vec![1, 3, 5, 8]);
    assert!(t.lookup(8));
    assert!(!t.lookup(9));
}

#[test]
fn scenario_with_root_left_child() {
    let mut t: Tree<i64> = Tree::with_root(10);
    t.insert(5);
    let root = t.root().as_ref().unwrap();
    assert_eq!(root.data, 10);
    assert_eq!(root.left.as_ref().unwrap().data, 5);
    assert!(root.right.is_none());
}

#[test]
fn scenario_increasing_chain() {
    let mut t: Tree<i64> = Tree::new();
    for v in 1..=5 {
        t.add(v);
    }
    assert_eq!(t.in_order_traversal(), vec![1, 2, 3, 4, 5]);
    let mut node = t.root();
    let mut depth: usize = 0;
    let mut expect: i64 = 1;
    while let Some(n) = node {
        assert_eq!(n.data, expect);
        assert!(n.left.is_none());
        depth += 1;
        expect += 1;
        node = &n.right;
    }
    assert_eq!(depth, 5);
}

#[test]
fn scenario_empty_tree() {
    let t: Tree<i64> = Tree::new();
    assert_eq!(t.in_order_traversal(), Vec::<i64>::new());
    assert!(!t.lookup(0));
    assert!(!t.lookup(42));
}

#[test]
fn traversal_sorted_any_order() {
    let mut t: Tree<i64> = Tree::new();
    for v in [9, -3, 4, 7, 0, 12, -3, 4, 2] {
        t.insert(v);
    }
    let got = t.in_order_traversal();
    assert_eq!(got, vec![-3, 0, 2, 4, 7, 9, 12]);
    for w in got.windows(2) {
        assert!(w[0] < w[1]);
    }
}

#[test]
fn duplicate_insert_is_noop() {
    let mut t: Tree<i64> = Tree::new();
    t.insert(7);
    let once = t.in_order_traversal();
    t.insert(7);
    let twice = t.in_order_traversal();
    assert_eq!(once, twice);
    assert_eq!(twice, vec![7]);
}

#[test]
fn traversal_counts_distinct_inserts() {
    let mut t: Tree<i64> = Tree::new();
    for v in [5, 5, 1, 9, 1, 5, 9] {
        t.add(v);
    }
    assert_eq!(t.in_order_traversal().len(), 3);
}

#[test]
fn lookup_finds_every_inserted_value() {
    let mut t: Tree<i64> = Tree::new();
    let values: [i64; 6] = [8, 1, -4, 100, 55, 0];
    for v in values {
        t.insert(v);
    }
    for v in values {
        assert!(t.lookup(v));
    }
    assert!(!t.lookup(2));
    assert!(!t.lookup(-100));
}

#[test]
fn default_tree_is_empty() {
    let t: Tree<i64> = Default::default();
    assert!(t.in_order_traversal().is_empty());
    assert!(t.root().is_none());
}

#[test]
fn node_new_makes_leaf() {
    let n = Node::new(4i64).unwrap();
    assert_eq!(n.data, 4);
    assert!(n.left.is_none());
    assert!(n.right.is_none());
}
