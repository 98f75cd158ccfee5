//! Mathematical model of s-expression trees.

use vstd::prelude::*;

verus! {

/// Model of an s-expression: a leaf carrying a byte string (an empty byte
/// string stands for nil), or a pair of two subtrees.
pub enum Tree {
    Atom(Seq<u8>),
    Pair(Box<Tree>, Box<Tree>),
}

/// The nil leaf: an atom with no bytes.
pub open spec fn nil_tree() -> Tree {
    Tree::Atom(Seq::empty())
}

/// A pair node from two subtrees.
pub open spec fn pair_tree(l: Tree, r: Tree) -> Tree {
    Tree::Pair(Box::new(l), Box::new(r))
}

/// The number of nodes in a tree; a positive measure for recursion over
/// trees reached through opaque handles.
pub open spec fn tree_size(t: Tree) -> nat
    decreases t,
{
    match t {
        Tree::Atom(_) => 1nat,
        Tree::Pair(l, r) => (1 + tree_size(*l) + tree_size(*r)) as nat,
    }
}

/// Branching agreement: `out` has exactly the pair/atom branching of
/// `proto`, except below non-empty atom leaves of `proto`, where any tree
/// may stand; nil leaves of `proto` stay nil.
pub open spec fn shape_matches(proto: Tree, out: Tree) -> bool
    decreases proto,
{
    match proto {
        Tree::Atom(bytes) => if bytes.len() == 0 {
            out == nil_tree()
        } else {
            true
        },
        Tree::Pair(l, r) => match out {
            Tree::Pair(ol, or) => shape_matches(*l, *ol) && shape_matches(*r, *or),
            Tree::Atom(_) => false,
        },
    }
}

} // verus!
