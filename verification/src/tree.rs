//! Binary trees of integers.
use vstd::prelude::*;

verus! {

/// A node of a binary tree.
pub struct TreeNode {
    pub val: i32,
    pub left: TreeLink,
    pub right: TreeLink,
}

/// A possibly empty binary tree.
pub type TreeLink = Option<Box<TreeNode>>;

/// The number of nodes of a tree.
pub open spec fn tree_size(t: TreeLink) -> nat
    decreases t,
{
    match t {
        None => 0,
        Some(node) => 1 + tree_size(node.left) + tree_size(node.right),
    }
}

/// The values of a tree: a node first, then its left subtree, then its right
/// subtree.
pub open spec fn preorder(t: TreeLink) -> Seq<i32>
    decreases t,
{
    match t {
        None => Seq::empty(),
        Some(node) => seq![node.val] + preorder(node.left) + preorder(node.right),
    }
}

/// A tree has as many values as nodes.
pub proof fn lemma_preorder_len(t: TreeLink)
    ensures
        preorder(t).len() == tree_size(t),
    decreases t,
{
    if let Some(node) = t {
        lemma_preorder_len(node.left);
        lemma_preorder_len(node.right);
    }
}

impl TreeNode {
    /// A node without children.
    pub fn new(val: i32) -> (node: TreeNode)
        ensures
            node.val == val,
            node.left is None,
            node.right is None,
    {
        TreeNode { val, left: None, right: None }
    }

    /// The tree whose root shows `val` above the two given subtrees.
    pub fn branch(val: i32, left: TreeLink, right: TreeLink) -> (t: TreeLink)
        ensures
            t == Some(Box::new(TreeNode { val, left, right })),
    {
        Some(Box::new(TreeNode { val, left, right }))
    }
}

} // verus!
