//! An AVL tree: a binary search tree that rebalances itself on insertion.

use crate::order::{ascending, lemma_comparisons, lemma_trichotomy, less, total_order};
use vstd::prelude::*;
use vstd::std_specs::cmp::{PartialEqSpec, PartialEqSpecImpl};
use vstd::std_specs::convert::FromSpecImpl;

verus! {

/// A tree is either an empty leaf or a node that holds a value and owns a
/// left and a right subtree.
#[derive(Debug)]
pub enum TreeNode<T: Ord> {
    Leaf,
    Node(T, Box<TreeNode<T>>, Box<TreeNode<T>>),
}

impl<T: Ord> View for TreeNode<T> {
    type V = Seq<T>;

    /// The values of the tree in in-order: left subtree, value, right subtree.
    open spec fn view(&self) -> Seq<T> {
        self.in_order()
    }
}

impl<T: Ord> TreeNode<T> {
    /// The values of the tree in in-order: left subtree, value, right subtree.
    pub open spec fn in_order(self) -> Seq<T>
        decreases self,
    {
        match self {
            TreeNode::Leaf => Seq::empty(),
            TreeNode::Node(value, left, right) => left.in_order() + seq![value] + right.in_order(),
        }
    }

    /// The set of the values that the tree holds.
    pub open spec fn values(self) -> Set<T>
        decreases self,
    {
        match self {
            TreeNode::Leaf => Set::empty(),
            TreeNode::Node(value, left, right) => left.values().union(right.values()).insert(value),
        }
    }

    /// The number of nodes.
    pub open spec fn size(self) -> nat
        decreases self,
    {
        match self {
            TreeNode::Leaf => 0,
            TreeNode::Node(_, left, right) => 1 + left.size() + right.size(),
        }
    }

    /// The number of nodes on the longest way from the root down; 0 for a leaf.
    pub open spec fn spec_height(self) -> nat
        decreases self,
    {
        match self {
            TreeNode::Leaf => 0,
            TreeNode::Node(_, left, right) => {
                let l = left.spec_height();
                let r = right.spec_height();
                if l >= r {
                    1 + l
                } else {
                    1 + r
                }
            },
        }
    }

    /// The height of the left subtree less that of the right one; 0 for a leaf.
    pub open spec fn spec_balance_factor(self) -> int {
        match self {
            TreeNode::Leaf => 0,
            TreeNode::Node(_, left, right) => left.spec_height() - right.spec_height(),
        }
    }

    /// At every node, what the left subtree holds comes before the node's
    /// value, and what the right subtree holds comes after it.
    pub open spec fn spec_is_bst(self) -> bool
        decreases self,
    {
        match self {
            TreeNode::Leaf => true,
            TreeNode::Node(value, left, right) => {
                &&& left.spec_is_bst()
                &&& right.spec_is_bst()
                &&& forall|x: T| left.values().contains(x) ==> less(x, value)
                &&& forall|x: T| right.values().contains(x) ==> less(value, x)
            },
        }
    }

    /// At every node, the heights of the two subtrees differ by at most 1.
    pub open spec fn spec_is_balanced(self) -> bool
        decreases self,
    {
        match self {
            TreeNode::Leaf => true,
            TreeNode::Node(_, left, right) => {
                &&& -1 <= self.spec_balance_factor() <= 1
                &&& left.spec_is_balanced()
                &&& right.spec_is_balanced()
            },
        }
    }

    /// The tree is a binary search tree and balanced.
    pub open spec fn is_avl(self) -> bool {
        self.spec_is_bst() && self.spec_is_balanced()
    }

    /// The tree after a left rotation about its root: the right child comes
    /// up, and the root goes down to its left. A tree without a right child
    /// stays as it is.
    pub open spec fn rotated_left(self) -> Self {
        match self {
            TreeNode::Node(x, a, right) => match *right {
                TreeNode::Node(y, b, c) => TreeNode::Node(y, Box::new(TreeNode::Node(x, a, b)), c),
                TreeNode::Leaf => self,
            },
            TreeNode::Leaf => self,
        }
    }

    /// The tree after a right rotation about its root: the left child comes
    /// up, and the root goes down to its right. A tree without a left child
    /// stays as it is.
    pub open spec fn rotated_right(self) -> Self {
        match self {
            TreeNode::Node(x, left, c) => match *left {
                TreeNode::Node(y, a, b) => TreeNode::Node(y, a, Box::new(TreeNode::Node(x, b, c))),
                TreeNode::Leaf => self,
            },
            TreeNode::Leaf => self,
        }
    }

    /// The tree after rebalancing at its root. A root that leans left by more
    /// than 1 is rotated right, after its left child was rotated left if that
    /// child leans right; a root that leans right is treated in mirror image.
    pub open spec fn rebalanced(self) -> Self {
        match self {
            TreeNode::Node(value, left, right) => {
                if self.spec_balance_factor() > 1 {
                    if left.spec_balance_factor() < 0 {
                        TreeNode::Node(value, Box::new(left.rotated_left()), right).rotated_right()
                    } else {
                        self.rotated_right()
                    }
                } else if self.spec_balance_factor() < -1 {
                    if right.spec_balance_factor() > 0 {
                        TreeNode::Node(value, left, Box::new(right.rotated_right())).rotated_left()
                    } else {
                        self.rotated_left()
                    }
                } else {
                    self
                }
            },
            TreeNode::Leaf => self,
        }
    }

    /// The tree after the insertion of `value`: a new node takes the place of
    /// the leaf that the search for `value` ends in, and every node on the
    /// way back up is rebalanced. A tree that holds `value` on that way stays
    /// as it is below that node.
    pub open spec fn inserted(self, value: T) -> Self
        decreases self,
    {
        match self {
            TreeNode::Leaf => TreeNode::Node(
                value,
                Box::new(TreeNode::Leaf),
                Box::new(TreeNode::Leaf),
            ),
            TreeNode::Node(v, left, right) => {
                if less(value, v) {
                    TreeNode::Node(v, Box::new(left.inserted(value)), right).rebalanced()
                } else if less(v, value) {
                    TreeNode::Node(v, left, Box::new(right.inserted(value))).rebalanced()
                } else {
                    self
                }
            },
        }
    }

    /// The tree that grows from a leaf by the insertion of `values`, one
    /// after the other.
    pub open spec fn built_from(values: Seq<T>) -> Self
        decreases values.len(),
    {
        if values.len() == 0 {
            TreeNode::Leaf
        } else {
            Self::built_from(values.drop_last()).inserted(values.last())
        }
    }

    /// Every value of the tree lies above `min` and below `max`, where they
    /// are given.
    pub open spec fn lies_between(self, min: Option<&T>, max: Option<&T>) -> bool {
        forall|x: T| #[trigger]
            self.values().contains(x) ==> {
                &&& min matches Some(low) ==> less(*low, x)
                &&& max matches Some(high) ==> less(x, *high)
            }
    }

    /// The two trees are of the same shape and hold equal values at every
    /// place.
    pub open spec fn same_as(self, other: Self) -> bool
        decreases self,
    {
        match (self, other) {
            (TreeNode::Leaf, TreeNode::Leaf) => true,
            (TreeNode::Node(a, left_a, right_a), TreeNode::Node(b, left_b, right_b)) => {
                &&& a.eq_spec(&b)
                &&& left_a.same_as(*left_b)
                &&& right_a.same_as(*right_b)
            },
            _ => false,
        }
    }

    /// Creates an empty tree.
    pub fn new() -> (tree: Self)
        ensures
            tree == TreeNode::<T>::Leaf,
    {
        TreeNode::Leaf
    }

    /// Creates the node that holds `value` above `left` and `right`, whatever
    /// they hold.
    pub fn node(value: T, left: TreeNode<T>, right: TreeNode<T>) -> (tree: Self)
        ensures
            tree == TreeNode::Node(value, Box::new(left), Box::new(right)),
    {
        TreeNode::Node(value, Box::new(left), Box::new(right))
    }

    /// The height of the tree, which has to fit a `usize`.
    pub fn height(&self) -> (h: usize)
        requires
            self.spec_height() <= usize::MAX,
        ensures
            h == self.spec_height(),
        decreases self,
    {
        match self {
            TreeNode::Leaf => 0,
            TreeNode::Node(_, left, right) => {
                let l = left.height();
                let r = right.height();
                if l >= r {
                    1 + l
                } else {
                    1 + r
                }
            },
        }
    }

    /// Whether every node's subtrees differ in height by at most 1. The
    /// height of the tree has to fit a `usize`.
    pub fn is_balanced(&self) -> (balanced: bool)
        requires
            self.spec_height() <= usize::MAX,
        ensures
            balanced == self.spec_is_balanced(),
        decreases self,
    {
        match self {
            TreeNode::Leaf => true,
            TreeNode::Node(_, left, right) => {
                let l = left.height();
                let r = right.height();
                let close = if l >= r {
                    l - r <= 1
                } else {
                    r - l <= 1
                };
                close && left.is_balanced() && right.is_balanced()
            },
        }
    }

    /// The balance factor of the tree. The heights of the two subtrees have
    /// to fit an `i32`.
    pub fn balance_factor(&self) -> (factor: i32)
        requires
            self.spec_height() <= i32::MAX + 1,
        ensures
            factor == self.spec_balance_factor(),
    {
        match self {
            TreeNode::Leaf => 0,
            TreeNode::Node(_, left, right) => (left.height() as i32) - (right.height() as i32),
        }
    }

    /// Rotates the tree left about its root.
    pub fn left_rotate(&mut self)
        ensures
            *final(self) == old(self).rotated_left(),
            final(self)@ == old(self)@,
    {
        proof {
            self.lemma_rotated_left_keeps();
        }
        let mut owned = TreeNode::Leaf;
        std::mem::swap(self, &mut owned);
        match owned {
            TreeNode::Node(x, a, right) => match *right {
                TreeNode::Node(y, b, c) => {
                    *self = TreeNode::Node(y, Box::new(TreeNode::Node(x, a, b)), c);
                },
                TreeNode::Leaf => {
                    *self = TreeNode::Node(x, a, Box::new(TreeNode::Leaf));
                },
            },
            TreeNode::Leaf => {},
        }
    }

    /// Rotates the tree right about its root.
    pub fn right_rotate(&mut self)
        ensures
            *final(self) == old(self).rotated_right(),
            final(self)@ == old(self)@,
    {
        proof {
            self.lemma_rotated_right_keeps();
        }
        let mut owned = TreeNode::Leaf;
        std::mem::swap(self, &mut owned);
        match owned {
            TreeNode::Node(x, left, c) => match *left {
                TreeNode::Node(y, a, b) => {
                    *self = TreeNode::Node(y, a, Box::new(TreeNode::Node(x, b, c)));
                },
                TreeNode::Leaf => {
                    *self = TreeNode::Node(x, Box::new(TreeNode::Leaf), c);
                },
            },
            TreeNode::Leaf => {},
        }
    }

    /// Rebalances the tree at its root. The heights of the two subtrees have
    /// to fit an `i32`.
    pub fn rebalance(&mut self)
        requires
            old(self).spec_height() <= i32::MAX + 1,
        ensures
            *final(self) == old(self).rebalanced(),
            final(self)@ == old(self)@,
    {
        proof {
            self.lemma_rebalanced_keeps();
        }
        let factor = self.balance_factor();
        if factor > 1 {
            match self {
                TreeNode::Node(_, left, _) => {
                    if left.balance_factor() < 0 {
                        left.left_rotate();
                    }
                },
                TreeNode::Leaf => {},
            }
            self.right_rotate();
        } else if factor < -1 {
            match self {
                TreeNode::Node(_, _, right) => {
                    if right.balance_factor() > 0 {
                        right.right_rotate();
                    }
                },
                TreeNode::Leaf => {},
            }
            self.left_rotate();
        }
    }

    /// Inserts `value` unless the search for it finds it in the tree, and
    /// rebalances the nodes on the way back up. A balanced search tree stays
    /// one, and stays as it is where it holds `value` already. The height of
    /// the tree has to fit an `i32`, in which balance factors are computed.
    pub fn insert(&mut self, value: T)
        requires
            total_order::<T>(),
            old(self).spec_height() <= i32::MAX,
        ensures
            *final(self) == old(self).inserted(value),
            final(self).values() == old(self).values().insert(value),
            final(self)@.to_set() == old(self)@.to_set().insert(value),
            old(self).size() <= final(self).size() <= old(self).size() + 1,
            final(self).spec_height() <= old(self).spec_height() + 1,
            old(self).spec_is_bst() ==> final(self).spec_is_bst(),
            old(self).spec_is_balanced() ==> final(self).spec_is_balanced()
                && old(self).spec_height() <= final(self).spec_height(),
            old(self).is_avl() && old(self).values().contains(value) ==> *final(self) == *old(
                self,
            ),
        decreases *old(self),
    {
        proof {
            self.lemma_inserted_values(value);
            self.lemma_in_order_values();
            self.inserted(value).lemma_in_order_values();
            self.lemma_inserted_size(value);
            self.lemma_inserted_height(value);
            if self.spec_is_bst() {
                self.lemma_inserted_is_bst(value);
            }
            if self.spec_is_balanced() {
                self.lemma_inserted_is_balanced(value);
            }
            if self.is_avl() && self.values().contains(value) {
                self.lemma_inserted_again(value);
            }
        }
        match self {
            TreeNode::Leaf => {
                *self = TreeNode::Node(value, Box::new(TreeNode::Leaf), Box::new(TreeNode::Leaf));
            },
            TreeNode::Node(node_value, left, right) => {
                let ghost v = *node_value;
                let ghost l = **left;
                let ghost r = **right;
                proof {
                    lemma_comparisons(value, v);
                }
                if value < *node_value {
                    proof {
                        l.lemma_inserted_height(value);
                    }
                    left.insert(value);
                    assert(*self == TreeNode::Node(v, Box::new(l.inserted(value)), Box::new(r)));
                    self.rebalance();
                } else if value > *node_value {
                    proof {
                        r.lemma_inserted_height(value);
                    }
                    right.insert(value);
                    assert(*self == TreeNode::Node(v, Box::new(l), Box::new(r.inserted(value))));
                    self.rebalance();
                }
            },
        }
    }

    /// Whether the tree is a search tree whose values lie above `min` and
    /// below `max`, where they are given.
    fn is_bst_between(&self, min: Option<&T>, max: Option<&T>) -> (holds: bool)
        requires
            total_order::<T>(),
        ensures
            holds == (self.spec_is_bst() && self.lies_between(min, max)),
        decreases self,
    {
        match self {
            TreeNode::Leaf => true,
            TreeNode::Node(value, left, right) => {
                proof {
                    self.lemma_bst_between(min, max);
                }
                match min {
                    Some(low) => {
                        proof {
                            lemma_comparisons(*value, *low);
                            lemma_trichotomy(*low, *value);
                        }
                        if value <= low {
                            return false;
                        }
                    },
                    None => {},
                }
                match max {
                    Some(high) => {
                        proof {
                            lemma_comparisons(*value, *high);
                            lemma_trichotomy(*value, *high);
                        }
                        if value >= high {
                            return false;
                        }
                    },
                    None => {},
                }
                left.is_bst_between(min, Some(value)) && right.is_bst_between(Some(value), max)
            },
        }
    }

    /// Whether the tree is a binary search tree.
    pub fn is_bst(&self) -> (holds: bool)
        requires
            total_order::<T>(),
        ensures
            holds == self.spec_is_bst(),
    {
        self.is_bst_between(None, None)
    }

    /// Whether the tree is a balanced binary search tree. The height of the
    /// tree has to fit a `usize`.
    pub fn validate(&self) -> (valid: bool)
        requires
            total_order::<T>(),
            self.spec_height() <= usize::MAX,
        ensures
            valid == self.is_avl(),
    {
        self.is_bst() && self.is_balanced()
    }

    /// Builds the tree that grows from a leaf by the insertion of the values
    /// of `seq`, one after the other: a balanced search tree that holds the
    /// values of `seq`, each once.
    pub fn from_sequence(seq: Vec<T>) -> (tree: Self)
        requires
            total_order::<T>(),
        ensures
            tree == Self::built_from(seq@),
            tree.is_avl(),
            tree.values() == seq@.to_set(),
            tree@.to_set() == seq@.to_set(),
            ascending(tree@),
            tree.size() <= seq@.len() <= usize::MAX,
            tree.spec_height() <= 93,
            seq@.no_duplicates() ==> tree@.len() == seq@.len(),
    {
        let mut tree = TreeNode::Leaf;
        for value in it: seq
            invariant
                total_order::<T>(),
                tree == Self::built_from(seq@.take(it.index() as int)),
        {
            proof {
                let done = seq@.take(it.index() as int);
                let next = seq@.take(it.index() + 1);
                Self::lemma_built_from(done);
                assert(tree.size() <= seq.len() <= u64::MAX);
                tree.lemma_balanced_height();
                assert(next.drop_last() == done);
            }
            tree.insert(value);
        }
        proof {
            assert(seq@.take(seq@.len() as int) == seq@);
            assert(seq.len() <= usize::MAX);
            Self::lemma_built_from(seq@);
            Self::lemma_built_from_height(seq@);
            if seq@.no_duplicates() {
                Self::lemma_built_from_distinct(seq@);
            }
        }
        tree
    }

    /// Moves the values of the tree behind those of `out`, in in-order.
    fn collect_in_order(self, out: &mut Vec<T>)
        ensures
            final(out)@ == old(out)@ + self@,
        decreases self,
    {
        match self {
            TreeNode::Leaf => {},
            TreeNode::Node(value, left, right) => {
                (*left).collect_in_order(out);
                out.push(value);
                (*right).collect_in_order(out);
            },
        }
    }

    /// Takes the tree apart into its values in in-order, which for a search
    /// tree is ascending order.
    pub fn to_sequence(self) -> (seq: Vec<T>)
        ensures
            seq@ == self@,
            total_order::<T>() && self.spec_is_bst() ==> ascending(seq@),
    {
        proof {
            if total_order::<T>() && self.spec_is_bst() {
                self.lemma_bst_ascending();
            }
        }
        let mut seq = Vec::new();
        self.collect_in_order(&mut seq);
        seq
    }
}

impl<T: Ord> TreeNode<T> {
    /// Compares two trees place by place.
    fn equals(&self, other: &Self) -> (equal: bool)
        ensures
            T::obeys_eq_spec() ==> equal == self.same_as(*other),
        decreases self,
    {
        match (self, other) {
            (TreeNode::Leaf, TreeNode::Leaf) => true,
            (TreeNode::Node(a, left_a, right_a), TreeNode::Node(b, left_b, right_b)) => {
                a == b && left_a.equals(left_b) && right_a.equals(right_b)
            },
            _ => false,
        }
    }
}

impl<T: Ord> PartialEq for TreeNode<T> {
    /// Compares two trees place by place: trees that hold the same values in
    /// another shape are not equal.
    fn eq(&self, other: &Self) -> (equal: bool) {
        self.equals(other)
    }
}

impl<T: Ord> PartialEqSpecImpl for TreeNode<T> {
    open spec fn obeys_eq_spec() -> bool {
        T::obeys_eq_spec()
    }

    open spec fn eq_spec(&self, other: &Self) -> bool {
        self.same_as(*other)
    }
}

impl<T: Ord> Eq for TreeNode<T> {
}

impl<T: Ord> Default for TreeNode<T> {
    /// The default tree is the empty one.
    fn default() -> (tree: Self)
        ensures
            tree == TreeNode::<T>::Leaf,
    {
        TreeNode::Leaf
    }
}

impl<T: Ord> From<TreeNode<T>> for Vec<T> {
    /// Takes the tree apart into its values in in-order.
    fn from(tree: TreeNode<T>) -> (seq: Self)
        ensures
            seq@ == tree@,
    {
        tree.to_sequence()
    }
}

/// No spec function builds a `Vec`, so this conversion is stated by the
/// `ensures` of `from` alone, over the views.
impl<T: Ord> FromSpecImpl<TreeNode<T>> for Vec<T> {
    open spec fn obeys_from_spec() -> bool {
        false
    }

    open spec fn from_spec(tree: TreeNode<T>) -> Self {
        arbitrary()
    }
}

impl<T: Ord + Clone> TreeNode<T> {
    /// `copy` is of the same shape as the tree and holds at every place a
    /// clone of the value there.
    pub open spec fn cloned_as(self, copy: Self) -> bool
        decreases self,
    {
        match (self, copy) {
            (TreeNode::Leaf, TreeNode::Leaf) => true,
            (TreeNode::Node(a, left_a, right_a), TreeNode::Node(b, left_b, right_b)) => {
                &&& cloned(a, b)
                &&& left_a.cloned_as(*left_b)
                &&& right_a.cloned_as(*right_b)
            },
            _ => false,
        }
    }
}

impl<T: Ord + Clone> Clone for TreeNode<T> {
    /// Copies the tree node by node, cloning each value.
    fn clone(&self) -> (copy: Self)
        ensures
            self.cloned_as(copy),
        decreases self,
    {
        match self {
            TreeNode::Leaf => TreeNode::Leaf,
            TreeNode::Node(value, left, right) => {
                let left_copy = (&**left).clone();
                let right_copy = (&**right).clone();
                TreeNode::Node(value.clone(), Box::new(left_copy), Box::new(right_copy))
            },
        }
    }
}

} // verus!
