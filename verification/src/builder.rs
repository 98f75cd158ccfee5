//! The abstract construction capability through which prototype trees are
//! read and output trees are built.

use vstd::prelude::*;
use crate::tree::Tree;
use crate::tree::pair_tree;

verus! {

/// What a node decomposes into: a byte string, or the two halves of a pair.
pub enum SexpContent<T> {
    SexpTypeAtom(Vec<u8>),
    SexpTypeCons(T, T),
}

/// The sole seam to the host tree representation: an opaque node-handle type
/// `T`, an opaque error type `E`, and four operations.  A builder value
/// models every handle it understands as a [`Tree`]; the operations may add
/// new handles but never change what an existing handle stands for.
pub trait SexpBuilder<T, E>: Sized {
    /// The builder is in a usable state.
    spec fn wf(&self) -> bool;

    /// `n` is a handle this builder understands.
    spec fn node_wf(&self, n: T) -> bool;

    /// The tree that handle `n` stands for.
    spec fn view_of(&self, n: T) -> Tree;

    /// Every handle of `prev` is still understood here, with the same view.
    spec fn extends(&self, prev: &Self) -> bool;

    proof fn lemma_extends_refl(&self)
        ensures
            self.extends(self),
    ;

    proof fn lemma_extends_trans(&self, mid: &Self, first: &Self)
        requires
            self.extends(mid),
            mid.extends(first),
        ensures
            self.extends(first),
    ;

    proof fn lemma_extends_node(&self, prev: &Self, n: T)
        requires
            self.extends(prev),
            prev.node_wf(n),
        ensures
            self.node_wf(n),
            self.view_of(n) == prev.view_of(n),
    ;

    /// Decompose a node into an atom's bytes or a pair's two halves.
    fn destructure(&mut self, value: T) -> (r: Result<SexpContent<T>, E>)
        requires
            old(self).wf(),
            old(self).node_wf(value),
        ensures
            final(self).wf(),
            final(self).extends(old(self)),
            (r matches Ok(c) ==> match c {
                SexpContent::SexpTypeAtom(bs) => old(self).view_of(value) == Tree::Atom(bs@),
                SexpContent::SexpTypeCons(a, b) => {
                    &&& old(self).node_wf(a)
                    &&& old(self).node_wf(b)
                    &&& old(self).view_of(value) == pair_tree(
                        old(self).view_of(a),
                        old(self).view_of(b),
                    )
                },
            }),
    ;

    /// Build a pair node from two existing nodes.
    fn make_cons(&mut self, some: T, other: T) -> (r: Result<T, E>)
        requires
            old(self).wf(),
            old(self).node_wf(some),
            old(self).node_wf(other),
        ensures
            final(self).wf(),
            final(self).extends(old(self)),
            (r matches Ok(n) ==> {
                &&& final(self).node_wf(n)
                &&& final(self).view_of(n) == pair_tree(
                    old(self).view_of(some),
                    old(self).view_of(other),
                )
            }),
    ;

    /// Build the nil leaf; this operation is total.
    fn make_nil(&mut self) -> (r: T)
        requires
            old(self).wf(),
        ensures
            final(self).wf(),
            final(self).extends(old(self)),
            final(self).node_wf(r),
            final(self).view_of(r) == Tree::Atom(Seq::<u8>::empty()),
    ;

    /// Build an atom node carrying the given bytes.
    fn make_atom(&mut self, bytes: &[u8]) -> (r: Result<T, E>)
        requires
            old(self).wf(),
        ensures
            final(self).wf(),
            final(self).extends(old(self)),
            (r matches Ok(n) ==> {
                &&& final(self).node_wf(n)
                &&& final(self).view_of(n) == Tree::Atom(bytes@)
            }),
    ;
}

} // verus!
