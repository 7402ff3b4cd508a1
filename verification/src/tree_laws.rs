//! What holds of the trees that insertion and rotation make.

use crate::order::{
    lemma_ascending_distinct, lemma_ascending_unique, lemma_less_transitive, lemma_trichotomy,
};
use crate::order::{ascending, less, total_order};
use crate::tree::TreeNode;
use crate::tree_height::lemma_pow_grows_with_base;
use vstd::arithmetic::power::pow;
use vstd::prelude::*;
use vstd::seq_lib::seq_to_set_distributes_over_add;

verus! {

impl<T: Ord> TreeNode<T> {
    /// A left rotation keeps the in-order sequence, the values and the size.
    pub proof fn lemma_rotated_left_keeps(self)
        ensures
            self.rotated_left()@ == self@,
            self.rotated_left().values() == self.values(),
            self.rotated_left().size() == self.size(),
    {
        reveal_with_fuel(TreeNode::in_order, 3);
        reveal_with_fuel(TreeNode::values, 3);
        reveal_with_fuel(TreeNode::size, 3);
        assert(self.rotated_left().in_order() =~= self.in_order());
        assert(self.rotated_left().values() =~= self.values());
    }

    /// A right rotation keeps the in-order sequence, the values and the size.
    pub proof fn lemma_rotated_right_keeps(self)
        ensures
            self.rotated_right()@ == self@,
            self.rotated_right().values() == self.values(),
            self.rotated_right().size() == self.size(),
    {
        reveal_with_fuel(TreeNode::in_order, 3);
        reveal_with_fuel(TreeNode::values, 3);
        reveal_with_fuel(TreeNode::size, 3);
        assert(self.rotated_right().in_order() =~= self.in_order());
        assert(self.rotated_right().values() =~= self.values());
    }

    /// A left rotation followed by a right rotation restores a tree whose
    /// right child is a node.
    pub proof fn lemma_rotate_left_then_right(self)
        requires
            self matches TreeNode::Node(_, _, right) && *right is Node,
        ensures
            self.rotated_left().rotated_right() == self,
    {
    }

    /// A right rotation followed by a left rotation restores a tree whose
    /// left child is a node.
    pub proof fn lemma_rotate_right_then_left(self)
        requires
            self matches TreeNode::Node(_, left, _) && *left is Node,
        ensures
            self.rotated_right().rotated_left() == self,
    {
    }

    /// A left rotation of a search tree gives a search tree.
    pub proof fn lemma_rotated_left_is_bst(self)
        requires
            total_order::<T>(),
            self.spec_is_bst(),
        ensures
            self.rotated_left().spec_is_bst(),
    {
        reveal_with_fuel(TreeNode::spec_is_bst, 3);
        reveal_with_fuel(TreeNode::values, 3);
        match self {
            TreeNode::Node(x, a, right) => match *right {
                TreeNode::Node(y, b, c) => {
                    let low = TreeNode::Node(x, a, b);
                    assert(right.values().contains(y));
                    assert forall|e: T| low.values().contains(e) implies less(e, y) by {
                        if a.values().contains(e) {
                            lemma_less_transitive(e, x, y);
                        } else if b.values().contains(e) {
                            assert(right.values().contains(e));
                        }
                    }
                    assert forall|e: T| b.values().contains(e) implies less(x, e) by {
                        assert(right.values().contains(e));
                    }
                    assert(low.spec_is_bst());
                },
                TreeNode::Leaf => {},
            },
            TreeNode::Leaf => {},
        }
    }

    /// A right rotation of a search tree gives a search tree.
    pub proof fn lemma_rotated_right_is_bst(self)
        requires
            total_order::<T>(),
            self.spec_is_bst(),
        ensures
            self.rotated_right().spec_is_bst(),
    {
        reveal_with_fuel(TreeNode::spec_is_bst, 3);
        reveal_with_fuel(TreeNode::values, 3);
        match self {
            TreeNode::Node(x, left, c) => match *left {
                TreeNode::Node(y, a, b) => {
                    let high = TreeNode::Node(x, b, c);
                    assert(left.values().contains(y));
                    assert forall|e: T| high.values().contains(e) implies less(y, e) by {
                        if c.values().contains(e) {
                            lemma_less_transitive(y, x, e);
                        } else if b.values().contains(e) {
                            assert(left.values().contains(e));
                        }
                    }
                    assert forall|e: T| b.values().contains(e) implies less(e, x) by {
                        assert(left.values().contains(e));
                    }
                    assert(high.spec_is_bst());
                },
                TreeNode::Leaf => {},
            },
            TreeNode::Leaf => {},
        }
    }

    /// Rebalancing keeps the in-order sequence, the values and the size.
    pub proof fn lemma_rebalanced_keeps(self)
        ensures
            self.rebalanced()@ == self@,
            self.rebalanced().values() == self.values(),
            self.rebalanced().size() == self.size(),
    {
        match self {
            TreeNode::Node(value, left, right) => {
                let turned_left = TreeNode::Node(value, Box::new(left.rotated_left()), right);
                let turned_right = TreeNode::Node(value, left, Box::new(right.rotated_right()));
                left.lemma_rotated_left_keeps();
                right.lemma_rotated_right_keeps();
                turned_left.lemma_rotated_right_keeps();
                turned_right.lemma_rotated_left_keeps();
                self.lemma_rotated_left_keeps();
                self.lemma_rotated_right_keeps();
            },
            TreeNode::Leaf => {},
        }
    }

    /// Rebalancing a search tree gives a search tree.
    pub proof fn lemma_rebalanced_is_bst(self)
        requires
            total_order::<T>(),
            self.spec_is_bst(),
        ensures
            self.rebalanced().spec_is_bst(),
    {
        match self {
            TreeNode::Node(value, left, right) => {
                let turned_left = TreeNode::Node(value, Box::new(left.rotated_left()), right);
                let turned_right = TreeNode::Node(value, left, Box::new(right.rotated_right()));
                left.lemma_rotated_left_keeps();
                left.lemma_rotated_left_is_bst();
                right.lemma_rotated_right_keeps();
                right.lemma_rotated_right_is_bst();
                turned_left.lemma_rotated_right_is_bst();
                turned_right.lemma_rotated_left_is_bst();
                self.lemma_rotated_left_is_bst();
                self.lemma_rotated_right_is_bst();
            },
            TreeNode::Leaf => {},
        }
    }

    /// Rebalancing makes no tree higher.
    pub proof fn lemma_rebalanced_height(self)
        ensures
            self.rebalanced().spec_height() <= self.spec_height(),
    {
        reveal_with_fuel(TreeNode::spec_height, 4);
    }

    /// Rebalancing a node whose subtrees are balanced and differ in height by
    /// 2 at most gives a balanced tree that is as high or lower by 1; a
    /// balanced tree stays as it is.
    pub proof fn lemma_rebalanced_is_balanced(self)
        requires
            self matches TreeNode::Node(_, left, right) && left.spec_is_balanced()
                && right.spec_is_balanced(),
            -2 <= self.spec_balance_factor() <= 2,
        ensures
            self.rebalanced().spec_is_balanced(),
            self.spec_height() - 1 <= self.rebalanced().spec_height() <= self.spec_height(),
            self.spec_is_balanced() ==> self.rebalanced() == self,
    {
        reveal_with_fuel(TreeNode::spec_height, 4);
        reveal_with_fuel(TreeNode::spec_is_balanced, 4);
    }

    /// After an insertion the tree holds what it held, and the new value.
    pub proof fn lemma_inserted_values(self, value: T)
        requires
            total_order::<T>(),
        ensures
            self.inserted(value).values() == self.values().insert(value),
        decreases self,
    {
        match self {
            TreeNode::Leaf => {
                reveal_with_fuel(TreeNode::values, 2);
                assert(self.inserted(value).values() =~= self.values().insert(value));
            },
            TreeNode::Node(v, left, right) => {
                lemma_trichotomy(value, v);
                if less(value, v) {
                    let grown = TreeNode::Node(v, Box::new(left.inserted(value)), right);
                    left.lemma_inserted_values(value);
                    grown.lemma_rebalanced_keeps();
                    assert(grown.values() =~= self.values().insert(value));
                } else if less(v, value) {
                    let grown = TreeNode::Node(v, left, Box::new(right.inserted(value)));
                    right.lemma_inserted_values(value);
                    grown.lemma_rebalanced_keeps();
                    assert(grown.values() =~= self.values().insert(value));
                } else {
                    assert(self.values() =~= self.values().insert(value));
                }
            },
        }
    }

    /// Insertion adds one node at most.
    pub proof fn lemma_inserted_size(self, value: T)
        ensures
            self.size() <= self.inserted(value).size() <= self.size() + 1,
        decreases self,
    {
        match self {
            TreeNode::Leaf => {
                reveal_with_fuel(TreeNode::size, 2);
            },
            TreeNode::Node(v, left, right) => {
                if less(value, v) {
                    let grown = TreeNode::Node(v, Box::new(left.inserted(value)), right);
                    left.lemma_inserted_size(value);
                    grown.lemma_rebalanced_keeps();
                } else if less(v, value) {
                    let grown = TreeNode::Node(v, left, Box::new(right.inserted(value)));
                    right.lemma_inserted_size(value);
                    grown.lemma_rebalanced_keeps();
                }
            },
        }
    }

    /// Insertion makes a tree higher by 1 at most.
    pub proof fn lemma_inserted_height(self, value: T)
        ensures
            self.inserted(value).spec_height() <= self.spec_height() + 1,
        decreases self,
    {
        match self {
            TreeNode::Leaf => {
                reveal_with_fuel(TreeNode::spec_height, 2);
            },
            TreeNode::Node(v, left, right) => {
                if less(value, v) {
                    left.lemma_inserted_height(value);
                    TreeNode::Node(v, Box::new(left.inserted(value)), right).lemma_rebalanced_height();
                } else if less(v, value) {
                    right.lemma_inserted_height(value);
                    TreeNode::Node(v, left, Box::new(right.inserted(value))).lemma_rebalanced_height();
                }
            },
        }
    }

    /// Insertion into a search tree gives a search tree.
    pub proof fn lemma_inserted_is_bst(self, value: T)
        requires
            total_order::<T>(),
            self.spec_is_bst(),
        ensures
            self.inserted(value).spec_is_bst(),
        decreases self,
    {
        match self {
            TreeNode::Leaf => {
                reveal_with_fuel(TreeNode::spec_is_bst, 2);
            },
            TreeNode::Node(v, left, right) => {
                if less(value, v) {
                    let grown = TreeNode::Node(v, Box::new(left.inserted(value)), right);
                    left.lemma_inserted_is_bst(value);
                    left.lemma_inserted_values(value);
                    assert(grown.spec_is_bst());
                    grown.lemma_rebalanced_is_bst();
                } else if less(v, value) {
                    let grown = TreeNode::Node(v, left, Box::new(right.inserted(value)));
                    right.lemma_inserted_is_bst(value);
                    right.lemma_inserted_values(value);
                    assert(grown.spec_is_bst());
                    grown.lemma_rebalanced_is_bst();
                }
            },
        }
    }

    /// Insertion into a balanced tree gives a balanced tree that is as high
    /// or higher by 1.
    pub proof fn lemma_inserted_is_balanced(self, value: T)
        requires
            self.spec_is_balanced(),
        ensures
            self.inserted(value).spec_is_balanced(),
            self.spec_height() <= self.inserted(value).spec_height() <= self.spec_height() + 1,
        decreases self,
    {
        match self {
            TreeNode::Leaf => {
                reveal_with_fuel(TreeNode::spec_height, 2);
                reveal_with_fuel(TreeNode::spec_is_balanced, 2);
            },
            TreeNode::Node(v, left, right) => {
                if less(value, v) {
                    let grown = TreeNode::Node(v, Box::new(left.inserted(value)), right);
                    left.lemma_inserted_is_balanced(value);
                    grown.lemma_rebalanced_is_balanced();
                } else if less(v, value) {
                    let grown = TreeNode::Node(v, left, Box::new(right.inserted(value)));
                    right.lemma_inserted_is_balanced(value);
                    grown.lemma_rebalanced_is_balanced();
                }
            },
        }
    }

    /// Insertion of a value that a balanced search tree holds already leaves
    /// the tree as it is.
    pub proof fn lemma_inserted_again(self, value: T)
        requires
            total_order::<T>(),
            self.is_avl(),
            self.values().contains(value),
        ensures
            self.inserted(value) == self,
        decreases self,
    {
        match self {
            TreeNode::Leaf => {},
            TreeNode::Node(v, left, right) => {
                lemma_trichotomy(value, v);
                if less(value, v) {
                    if right.values().contains(value) {
                        lemma_trichotomy(v, value);
                    }
                    left.lemma_inserted_again(value);
                    self.lemma_rebalanced_is_balanced();
                } else if less(v, value) {
                    if left.values().contains(value) {
                        lemma_trichotomy(v, value);
                    }
                    right.lemma_inserted_again(value);
                    self.lemma_rebalanced_is_balanced();
                }
            },
        }
    }

    /// The in-order sequence holds the values of the tree, one for each node.
    pub proof fn lemma_in_order_values(self)
        ensures
            self@.to_set() == self.values(),
            self@.len() == self.size(),
        decreases self,
    {
        match self {
            TreeNode::Leaf => {
                assert(self@.to_set() =~= self.values());
            },
            TreeNode::Node(value, left, right) => {
                left.lemma_in_order_values();
                right.lemma_in_order_values();
                seq_to_set_distributes_over_add(left@, seq![value]);
                seq_to_set_distributes_over_add(left@ + seq![value], right@);
                assert(seq![value].to_set() =~= set![value]) by {
                    assert(seq![value][0] == value);
                }
                assert(self@.to_set() =~= self.values());
            },
        }
    }

    /// The in-order sequence of a search tree ascends strictly.
    pub proof fn lemma_bst_ascending(self)
        requires
            total_order::<T>(),
            self.spec_is_bst(),
        ensures
            ascending(self@),
        decreases self,
    {
        match self {
            TreeNode::Leaf => {},
            TreeNode::Node(value, left, right) => {
                left.lemma_bst_ascending();
                right.lemma_bst_ascending();
                left.lemma_in_order_values();
                right.lemma_in_order_values();
                let n = left@.len() as int;
                assert forall|i: int, j: int| 0 <= i < j < self@.len() implies less(
                    self@[i],
                    self@[j],
                ) by {
                    if i < n {
                        assert(self@[i] == left@[i]);
                        assert(left@.to_set().contains(left@[i]));
                    }
                    if i > n {
                        assert(self@[i] == right@[i - n - 1]);
                    }
                    if j < n {
                        assert(self@[j] == left@[j]);
                    }
                    if j > n {
                        assert(self@[j] == right@[j - n - 1]);
                        assert(right@.to_set().contains(right@[j - n - 1]));
                    }
                    if i < n && j > n {
                        lemma_less_transitive(self@[i], value, self@[j]);
                    }
                }
            },
        }
    }

    /// A tree whose in-order sequence ascends strictly is a search tree.
    pub proof fn lemma_ascending_is_bst(self)
        requires
            ascending(self@),
        ensures
            self.spec_is_bst(),
        decreases self,
    {
        match self {
            TreeNode::Leaf => {},
            TreeNode::Node(value, left, right) => {
                let n = left@.len() as int;
                assert(self@[n] == value);
                assert forall|i: int, j: int| 0 <= i < j < left@.len() implies less(
                    left@[i],
                    left@[j],
                ) by {
                    assert(self@[i] == left@[i] && self@[j] == left@[j]);
                }
                assert forall|i: int, j: int| 0 <= i < j < right@.len() implies less(
                    right@[i],
                    right@[j],
                ) by {
                    assert(self@[n + 1 + i] == right@[i] && self@[n + 1 + j] == right@[j]);
                }
                left.lemma_ascending_is_bst();
                right.lemma_ascending_is_bst();
                left.lemma_in_order_values();
                right.lemma_in_order_values();
                assert forall|x: T| left.values().contains(x) implies less(x, value) by {
                    let i = choose|i: int| 0 <= i < left@.len() && left@[i] == x;
                    assert(self@[i] == x);
                }
                assert forall|x: T| right.values().contains(x) implies less(value, x) by {
                    let i = choose|i: int| 0 <= i < right@.len() && right@[i] == x;
                    assert(self@[n + 1 + i] == x);
                }
            },
        }
    }

    /// A node is a search tree between two bounds exactly when its value lies
    /// between them, its left subtree is a search tree between the lower
    /// bound and the value, and its right subtree is one between the value
    /// and the upper bound.
    pub proof fn lemma_bst_between(self, min: Option<&T>, max: Option<&T>)
        requires
            total_order::<T>(),
        ensures
            self matches TreeNode::Node(value, left, right) ==> ((self.spec_is_bst()
                && self.lies_between(min, max)) <==> {
                &&& min matches Some(low) ==> less(*low, value)
                &&& max matches Some(high) ==> less(value, *high)
                &&& left.spec_is_bst() && left.lies_between(min, Some(&value))
                &&& right.spec_is_bst() && right.lies_between(Some(&value), max)
            }),
    {
        match self {
            TreeNode::Node(value, left, right) => {
                let parts = {
                    &&& min matches Some(low) ==> less(*low, value)
                    &&& max matches Some(high) ==> less(value, *high)
                    &&& left.spec_is_bst() && left.lies_between(min, Some(&value))
                    &&& right.spec_is_bst() && right.lies_between(Some(&value), max)
                };
                if self.spec_is_bst() && self.lies_between(min, max) {
                    assert(self.values().contains(value));
                    assert forall|x: T| #[trigger] left.values().contains(x) implies {
                        &&& min matches Some(low) ==> less(*low, x)
                        &&& less(x, value)
                    } by {
                        assert(self.values().contains(x));
                    }
                    assert forall|x: T| #[trigger] right.values().contains(x) implies {
                        &&& less(value, x)
                        &&& max matches Some(high) ==> less(x, *high)
                    } by {
                        assert(self.values().contains(x));
                    }
                    assert(parts);
                }
                if parts {
                    assert forall|x: T| #[trigger] self.values().contains(x) implies {
                        &&& min matches Some(low) ==> less(*low, x)
                        &&& max matches Some(high) ==> less(x, *high)
                    } by {
                        if left.values().contains(x) {
                            if let Some(high) = max {
                                lemma_less_transitive(x, value, *high);
                            }
                        } else if right.values().contains(x) {
                            if let Some(low) = min {
                                lemma_less_transitive(*low, value, x);
                            }
                        }
                    }
                    assert(self.spec_is_bst());
                }
            },
            TreeNode::Leaf => {},
        }
    }

    /// The tree that grows from a leaf by the insertion of `values` is a
    /// balanced search tree that holds exactly `values`: its in-order
    /// sequence ascends strictly, so that it is `values` sorted, each value
    /// once.
    pub proof fn lemma_built_from(values: Seq<T>)
        requires
            total_order::<T>(),
        ensures
            Self::built_from(values).is_avl(),
            Self::built_from(values).values() == values.to_set(),
            Self::built_from(values)@.to_set() == values.to_set(),
            ascending(Self::built_from(values)@),
            Self::built_from(values).size() <= values.len(),
        decreases values.len(),
    {
        let tree = Self::built_from(values);
        if values.len() == 0 {
            assert(values.to_set() =~= Set::empty());
        } else {
            let before = Self::built_from(values.drop_last());
            Self::lemma_built_from(values.drop_last());
            before.lemma_inserted_values(values.last());
            before.lemma_inserted_is_bst(values.last());
            before.lemma_inserted_is_balanced(values.last());
            before.lemma_inserted_size(values.last());
            assert(values.drop_last().push(values.last()) == values);
            values.drop_last().lemma_push_to_set_commute(values.last());
        }
        tree.lemma_in_order_values();
        tree.lemma_bst_ascending();
    }

    /// The in-order sequence of the tree that grows from `values` is `values`
    /// sorted, each value once: it is the one strictly ascending sequence
    /// that holds the same values.
    pub proof fn lemma_built_from_sorted(values: Seq<T>, sorted: Seq<T>)
        requires
            total_order::<T>(),
            ascending(sorted),
            sorted.to_set() == values.to_set(),
        ensures
            Self::built_from(values)@ == sorted,
    {
        Self::lemma_built_from(values);
        lemma_ascending_unique(Self::built_from(values)@, sorted);
    }

    /// The tree that grows from distinct values has one node for each.
    pub proof fn lemma_built_from_distinct(values: Seq<T>)
        requires
            total_order::<T>(),
            values.no_duplicates(),
        ensures
            Self::built_from(values)@.len() == values.len(),
            Self::built_from(values).size() == values.len(),
    {
        let tree = Self::built_from(values);
        Self::lemma_built_from(values);
        tree.lemma_in_order_values();
        lemma_ascending_distinct(tree@);
        tree@.unique_seq_to_set();
        values.unique_seq_to_set();
    }

    /// The tree that grows from `n` values, where a `u64` can count them, is
    /// of a height `h` that is at most `1.44 * log2(n + 2)` rounded up:
    /// `2^(100 * (h - 1)) < (n + 2)^144`.
    pub proof fn lemma_built_from_height(values: Seq<T>)
        requires
            total_order::<T>(),
            values.len() <= u64::MAX,
        ensures
            Self::built_from(values).spec_height() <= 93,
            Self::built_from(values).spec_height() >= 1 ==> pow(
                2,
                (100 * (Self::built_from(values).spec_height() - 1)) as nat,
            ) < pow(values.len() + 2 as int, 144),
    {
        let tree = Self::built_from(values);
        Self::lemma_built_from(values);
        tree.lemma_balanced_height();
        lemma_pow_grows_with_base(tree.size() + 2 as int, values.len() + 2 as int, 144);
    }
}

} // verus!
