//! Two owned, recursive collections with verified contracts.
//!
//! [`list::ListNode`] is a singly-linked list that appends at its tail,
//! deletes at its head and reverses in place. [`tree::TreeNode`] is an AVL
//! tree: an ordered set that stays a balanced binary search tree under
//! insertion. Both convert from and to a `Vec`.
//!
//! The contracts of the list speak of its view, the sequence of its values.
//! Those of the tree speak of the tree itself, of the set of its values and
//! of its in-order sequence, which is its view. [`order`] states what the
//! tree asks of the values' order, [`tree_laws`] what insertion and rotation
//! keep, and [`tree_height`] how high a balanced tree can be.

pub mod list;
pub mod order;
pub mod tree;
pub mod tree_height;
pub mod tree_laws;
