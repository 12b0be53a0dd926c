//! An unbalanced binary search tree.

use vstd::prelude::*;

verus! {

/// A binary search tree: either empty or a node with two subtrees.
#[derive(Debug)]
pub enum BinaryTree<T> {
    Empty,
    NonEmpty(Box<TreeNode<T>>),
}

/// One node of a binary search tree.
#[derive(Debug)]
pub struct TreeNode<T> {
    pub element: T,
    pub left: BinaryTree<T>,
    pub right: BinaryTree<T>,
}

impl BinaryTree<i64> {
    /// The elements the tree holds.
    pub open spec fn as_set(self) -> Set<i64>
        decreases self,
    {
        match self {
            BinaryTree::Empty => Set::empty(),
            BinaryTree::NonEmpty(node) => node.left.as_set().union(node.right.as_set()).insert(
                node.element,
            ),
        }
    }

    /// The search-tree ordering: everything left of a node is smaller
    /// than it, everything right of it larger.
    pub open spec fn well_formed(self) -> bool
        decreases self,
    {
        match self {
            BinaryTree::Empty => true,
            BinaryTree::NonEmpty(node) => {
                &&& (forall|e: i64| node.left.as_set().contains(e) ==> e < node.element)
                &&& (forall|e: i64| node.right.as_set().contains(e) ==> e > node.element)
                &&& node.left.well_formed()
                &&& node.right.well_formed()
            },
        }
    }

    /// Add `value` to the tree, keeping the search ordering.  A value
    /// already present is left alone; the result says whether the tree
    /// grew.
    pub fn add(&mut self, value: i64) -> (inserted: bool)
        requires
            old(self).well_formed(),
        ensures
            final(self).well_formed(),
            final(self).as_set() == old(self).as_set().insert(value),
            inserted <==> !old(self).as_set().contains(value),
        decreases *old(self),
    {
        let mut tmp = BinaryTree::Empty;
        std::mem::swap(self, &mut tmp);
        match tmp {
            BinaryTree::Empty => {
                *self = BinaryTree::NonEmpty(
                    Box::new(
                        TreeNode {
                            element: value,
                            left: BinaryTree::Empty,
                            right: BinaryTree::Empty,
                        },
                    ),
                );
                proof {
                    assert(self.as_set() =~= old(self).as_set().insert(value));
                }
                true
            },
            BinaryTree::NonEmpty(mut node) => {
                let ghost orig = node;
                proof {
                    assert(*old(self) == BinaryTree::NonEmpty(orig));
                }
                if value < node.element {
                    let inserted = node.left.add(value);
                    *self = BinaryTree::NonEmpty(node);
                    proof {
                        assert(old(self).as_set().contains(value) <==> orig.left.as_set().contains(
                            value,
                        )) by {
                            if orig.right.as_set().contains(value) {
                            }
                        }
                        assert(self.as_set() =~= old(self).as_set().insert(value));
                    }
                    inserted
                } else if value > node.element {
                    let inserted = node.right.add(value);
                    *self = BinaryTree::NonEmpty(node);
                    proof {
                        assert(old(self).as_set().contains(value) <==> orig.right.as_set().contains(
                            value,
                        )) by {
                            if orig.left.as_set().contains(value) {
                            }
                        }
                        assert(self.as_set() =~= old(self).as_set().insert(value));
                    }
                    inserted
                } else {
                    *self = BinaryTree::NonEmpty(node);
                    proof {
                        assert(old(self).as_set().contains(value));
                        assert(self.as_set() =~= old(self).as_set().insert(value));
                    }
                    false
                }
            },
        }
    }
}

} // verus!
