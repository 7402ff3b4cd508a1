use avl_list::tree::TreeNode;

fn leaf() -> TreeNode<i32> {
    TreeNode::new()
}

fn single(value: i32) -> TreeNode<i32> {
    TreeNode::node(value, TreeNode::new(), TreeNode::new())
}

fn tree_of(values: &[i32]) -> TreeNode<i32> {
    let mut tree = TreeNode::new();
    for value in values {
        tree.insert(*value);
    }
    tree
}

fn three() -> TreeNode<i32> {
    TreeNode::node(20, single(10), single(30))
}

fn three_low() -> TreeNode<i32> {
    TreeNode::node(2, single(1), single(3))
}

fn height_bound(n: usize) -> usize {
    (1.44 * ((n + 2) as f64).log2()).ceil() as usize
}

fn scrambled(n: i32) -> Vec<i32> {
    (0..n).map(|i| (i * 7919 + 13) % n).collect()
}

#[test]
fn ll_rotation_trigger() {
    let tree = tree_of(&[30, 20, 10]);
    assert!(tree == three());
    assert_eq!(tree.height(), 2);
    assert_eq!(tree.to_sequence(), vec![10, 20, 30]);
}

#[test]
fn rr_rotation_trigger() {
    let tree = tree_of(&[10, 20, 30]);
    assert!(tree == three());
    assert_eq!(tree.height(), 2);
}

#[test]
fn lr_rotation_trigger() {
    let tree = tree_of(&[30, 10, 20]);
    assert!(tree == three());
    assert_eq!(tree.height(), 2);
}

#[test]
fn rl_rotation_trigger() {
    let tree = tree_of(&[10, 30, 20]);
    assert!(tree == three());
    assert_eq!(tree.height(), 2);
}

#[test]
fn duplicate_ignored() {
    let tree = tree_of(&[5, 3, 5, 3, 5]);
    assert!(tree.validate());
    assert_eq!(tree.to_sequence(), vec![3, 5]);
}

#[test]
fn new_tree_is_a_leaf() {
    let tree = leaf();
    assert!(matches!(tree, TreeNode::Leaf));
    assert_eq!(tree.height(), 0);
    assert!(tree.is_bst());
    assert!(tree.is_balanced());
    assert!(tree.validate());
    assert_eq!(tree.to_sequence(), Vec::<i32>::new());
}

#[test]
fn default_tree_is_a_leaf() {
    let tree: TreeNode<u8> = TreeNode::default();
    assert!(matches!(tree, TreeNode::Leaf));
}

#[test]
fn node_builds_without_checking() {
    let tree = TreeNode::node(1, single(5), single(0));
    match &tree {
        TreeNode::Node(value, left, right) => {
            assert_eq!(*value, 1);
            assert!(**left == single(5));
            assert!(**right == single(0));
        }
        TreeNode::Leaf => panic!("the tree is a leaf"),
    }
    assert!(!tree.is_bst());
    assert!(tree.is_balanced());
    assert!(!tree.validate());
}

#[test]
fn height_counts_the_longest_way_down() {
    assert_eq!(single(1).height(), 1);
    let chain = TreeNode::node(1, leaf(), TreeNode::node(2, leaf(), single(3)));
    assert_eq!(chain.height(), 3);
    let lopsided = TreeNode::node(4, chain, single(9));
    assert_eq!(lopsided.height(), 4);
}

#[test]
fn balance_factor_is_left_height_less_right_height() {
    assert_eq!(leaf().balance_factor(), 0);
    assert_eq!(single(1).balance_factor(), 0);
    let right_chain = TreeNode::node(1, leaf(), TreeNode::node(2, leaf(), single(3)));
    assert_eq!(right_chain.balance_factor(), -2);
    let left_chain = TreeNode::node(3, TreeNode::node(2, single(1), leaf()), leaf());
    assert_eq!(left_chain.balance_factor(), 2);
    assert_eq!(TreeNode::node(2, single(1), leaf()).balance_factor(), 1);
}

#[test]
fn is_balanced_looks_at_every_subtree() {
    let chain = TreeNode::node(1, leaf(), TreeNode::node(2, leaf(), single(3)));
    assert!(!chain.is_balanced());
    let left = TreeNode::node(3, TreeNode::node(2, single(1), leaf()), leaf());
    let right = TreeNode::node(7, leaf(), TreeNode::node(8, leaf(), single(9)));
    let hidden = TreeNode::node(5, left, right);
    assert_eq!(hidden.balance_factor(), 0);
    assert!(!hidden.is_balanced());
    assert!(TreeNode::node(2, single(1), leaf()).is_balanced());
}

#[test]
fn is_bst_needs_strict_order_through_all_levels() {
    assert!(three().is_bst());
    assert!(!TreeNode::node(20, single(20), leaf()).is_bst());
    assert!(!TreeNode::node(20, leaf(), single(20)).is_bst());
    let deep = TreeNode::node(20, TreeNode::node(10, leaf(), single(25)), single(30));
    assert!(!deep.is_bst());
    let deep_right = TreeNode::node(20, single(10), TreeNode::node(30, single(15), leaf()));
    assert!(!deep_right.is_bst());
    let chain = TreeNode::node(1, leaf(), TreeNode::node(2, leaf(), single(3)));
    assert!(chain.is_bst());
}

#[test]
fn validate_needs_both_order_and_balance() {
    assert!(three().validate());
    let chain = TreeNode::node(1, leaf(), TreeNode::node(2, leaf(), single(3)));
    assert!(chain.is_bst() && !chain.validate());
    let unordered = TreeNode::node(1, single(2), single(3));
    assert!(unordered.is_balanced() && !unordered.validate());
}

#[test]
fn left_rotate_lifts_the_right_child() {
    let mut tree = TreeNode::node(
        10,
        single(5),
        TreeNode::node(20, single(15), single(30)),
    );
    tree.left_rotate();
    let expected = TreeNode::node(
        20,
        TreeNode::node(10, single(5), single(15)),
        single(30),
    );
    assert!(tree == expected);
    assert_eq!(tree.to_sequence(), vec![5, 10, 15, 20, 30]);
}

#[test]
fn right_rotate_lifts_the_left_child() {
    let mut tree = TreeNode::node(
        20,
        TreeNode::node(10, single(5), single(15)),
        single(30),
    );
    tree.right_rotate();
    let expected = TreeNode::node(
        10,
        single(5),
        TreeNode::node(20, single(15), single(30)),
    );
    assert!(tree == expected);
    assert_eq!(tree.to_sequence(), vec![5, 10, 15, 20, 30]);
}

#[test]
fn rotations_leave_a_tree_without_pivot_alone() {
    let mut tree = leaf();
    tree.left_rotate();
    assert!(tree == leaf());
    tree.right_rotate();
    assert!(tree == leaf());
    let mut left_only = TreeNode::node(2, single(1), leaf());
    left_only.left_rotate();
    assert!(left_only == TreeNode::node(2, single(1), leaf()));
    let mut right_only = TreeNode::node(2, leaf(), single(3));
    right_only.right_rotate();
    assert!(right_only == TreeNode::node(2, leaf(), single(3)));
}

#[test]
fn rotation_inverse() {
    let build = || TreeNode::node(10, single(5), TreeNode::node(20, single(15), single(30)));
    let mut tree = build();
    tree.left_rotate();
    assert!(tree != build());
    tree.right_rotate();
    assert!(tree == build());
    let mirror = || TreeNode::node(20, TreeNode::node(10, single(5), single(15)), single(30));
    let mut tree = mirror();
    tree.right_rotate();
    assert!(tree != mirror());
    tree.left_rotate();
    assert!(tree == mirror());
}

#[test]
fn rebalance_turns_a_left_chain() {
    let mut tree = TreeNode::node(3, TreeNode::node(2, single(1), leaf()), leaf());
    tree.rebalance();
    assert!(tree == TreeNode::node(2, single(1), single(3)));
}

#[test]
fn rebalance_turns_a_right_chain() {
    let mut tree = TreeNode::node(1, leaf(), TreeNode::node(2, leaf(), single(3)));
    tree.rebalance();
    assert!(tree == TreeNode::node(2, single(1), single(3)));
}

#[test]
fn rebalance_turns_a_left_right_bend_twice() {
    let mut tree = TreeNode::node(3, TreeNode::node(1, leaf(), single(2)), leaf());
    tree.rebalance();
    assert!(tree == TreeNode::node(2, single(1), single(3)));
}

#[test]
fn rebalance_turns_a_right_left_bend_twice() {
    let mut tree = TreeNode::node(1, leaf(), TreeNode::node(3, single(2), leaf()));
    tree.rebalance();
    assert!(tree == TreeNode::node(2, single(1), single(3)));
}

#[test]
fn rebalance_leaves_a_balanced_tree_alone() {
    let mut tree = TreeNode::node(2, single(1), leaf());
    tree.rebalance();
    assert!(tree == TreeNode::node(2, single(1), leaf()));
    let mut empty = leaf();
    empty.rebalance();
    assert!(empty == leaf());
}

#[test]
fn rebalance_with_an_even_left_child_turns_once() {
    let mut tree = TreeNode::node(
        5,
        TreeNode::node(3, single(2), single(4)),
        leaf(),
    );
    tree.rebalance();
    let expected = TreeNode::node(3, single(2), TreeNode::node(5, single(4), leaf()));
    assert!(tree == expected);
    assert!(tree.is_balanced());
}

#[test]
fn insert_into_a_leaf_makes_one_node() {
    let mut tree = leaf();
    tree.insert(4);
    assert!(tree == single(4));
}

#[test]
fn insert_goes_left_or_right_by_order() {
    let mut tree = single(10);
    tree.insert(5);
    assert!(tree == TreeNode::node(10, single(5), leaf()));
    tree.insert(15);
    assert!(tree == TreeNode::node(10, single(5), single(15)));
}

#[test]
fn insert_rebalances_below_the_root() {
    let tree = tree_of(&[50, 30, 70, 20, 40, 10]);
    let expected = TreeNode::node(
        30,
        TreeNode::node(20, single(10), leaf()),
        TreeNode::node(50, single(40), single(70)),
    );
    assert!(tree == expected);
    let deeper = tree_of(&[50, 30, 70, 60, 80, 20, 10]);
    let expected = TreeNode::node(
        50,
        TreeNode::node(20, single(10), single(30)),
        TreeNode::node(70, single(60), single(80)),
    );
    assert!(deeper == expected);
}

#[test]
fn insert_of_the_value_at_a_node_stops_there() {
    let build = || TreeNode::node(3, TreeNode::node(2, single(1), leaf()), leaf());
    let mut tree = build();
    tree.insert(3);
    assert!(tree == build());
}

#[test]
fn insert_rebalances_on_the_way_back_from_a_found_value() {
    let mut tree = TreeNode::node(3, TreeNode::node(2, single(1), leaf()), leaf());
    tree.insert(1);
    assert!(tree == three_low());
}

#[test]
fn idempotent_insert() {
    let values = scrambled(200);
    let mut tree = tree_of(&values);
    for value in &values {
        let before = tree.clone();
        tree.insert(*value);
        assert!(tree == before);
    }
}

#[test]
fn in_order_is_sorted_without_duplicates() {
    let values = vec![9, 3, 7, 3, 1, 9, 8, 2, 7, 0, 5];
    let tree = TreeNode::from_sequence(values.clone());
    let mut expected = values;
    expected.sort();
    expected.dedup();
    assert_eq!(tree.to_sequence(), expected);
}

#[test]
fn in_order_of_distinct_values_is_their_sorted_order() {
    for n in 1..60 {
        let values = scrambled(n);
        let mut expected = values.clone();
        expected.sort();
        expected.dedup();
        let tree = TreeNode::from_sequence(values);
        assert_eq!(tree.to_sequence(), expected);
    }
}

#[test]
fn built_trees_are_balanced_search_trees() {
    for n in 0..80 {
        let ascending: Vec<i32> = (0..n).collect();
        let descending: Vec<i32> = (0..n).rev().collect();
        for values in [ascending, descending, scrambled(n.max(1))] {
            let tree = TreeNode::from_sequence(values);
            assert!(tree.is_balanced());
            assert!(tree.is_bst());
            assert!(tree.validate());
        }
    }
}

#[test]
fn every_insertion_keeps_the_tree_valid() {
    let mut tree = leaf();
    for value in scrambled(300) {
        tree.insert(value);
        assert!(tree.validate());
    }
}

#[test]
fn height_stays_within_the_avl_bound() {
    for n in [1usize, 2, 3, 4, 7, 12, 33, 100, 1000, 5000] {
        let ascending: Vec<i32> = (0..n as i32).collect();
        let tree = TreeNode::from_sequence(ascending);
        assert!(tree.height() <= height_bound(n));
        let mixed: Vec<i32> = (0..n as i32).map(|i| (i * 7919) % 10007).collect();
        let tree = TreeNode::from_sequence(mixed);
        assert!(tree.height() <= height_bound(n));
    }
}

#[test]
fn height_of_small_built_trees() {
    assert_eq!(tree_of(&[1]).height(), 1);
    assert_eq!(tree_of(&[1, 2]).height(), 2);
    assert_eq!(tree_of(&[1, 2, 3, 4, 5, 6, 7]).height(), 3);
    assert_eq!(tree_of(&[1, 2, 3, 4, 5, 6, 7, 8]).height(), 4);
}

#[test]
fn from_sequence_inserts_in_order() {
    let values = vec![4, 2, 6, 1, 3, 5, 7, 0];
    assert!(TreeNode::from_sequence(values.clone()) == tree_of(&values));
    assert!(TreeNode::from_sequence(Vec::<i32>::new()) == leaf());
}

#[test]
fn to_sequence_walks_in_order_whatever_the_tree() {
    let unordered = TreeNode::node(1, single(2), single(3));
    assert_eq!(unordered.to_sequence(), vec![2, 1, 3]);
    let values: Vec<i32> = Vec::from(three());
    assert_eq!(values, vec![10, 20, 30]);
    let again: Vec<i32> = three().into();
    assert_eq!(again, vec![10, 20, 30]);
}

#[test]
fn equality_is_by_shape() {
    let left = TreeNode::node(2, single(1), leaf());
    let right = TreeNode::node(1, leaf(), single(2));
    assert!(left != right);
    assert_eq!(left.to_sequence(), right.to_sequence());
    assert!(three() == three());
    assert!(three() != TreeNode::node(20, single(10), single(31)));
    assert!(three() != TreeNode::node(20, single(10), leaf()));
    assert!(leaf() == leaf());
    assert!(leaf() != single(1));
}

#[test]
fn clone_copies_shape_and_values() {
    let tree = tree_of(&[5, 2, 8, 1, 9, 3]);
    let copy = tree.clone();
    assert!(copy == tree);
    assert_eq!(copy.to_sequence(), vec![1, 2, 3, 5, 8, 9]);
}

#[test]
fn strings_are_ordered_too() {
    let mut tree = TreeNode::new();
    for word in ["pear", "apple", "fig", "apple", "kiwi"] {
        tree.insert(String::from(word));
    }
    assert!(tree.validate());
    assert_eq!(tree.to_sequence(), vec!["apple", "fig", "kiwi", "pear"]);
}

#[test]
fn tree_debug_names_the_variants() {
    assert_eq!(format!("{:?}", single(1)), "Node(1, Leaf, Leaf)");
}
