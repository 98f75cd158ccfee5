//! A verified, never-failing implementation of the builder capability over a
//! growable arena of nodes, with `usize` indices as handles.

use vstd::prelude::*;
use crate::builder::SexpBuilder;
use crate::builder::SexpContent;
use crate::tree::Tree;
use crate::tree::nil_tree;
use crate::tree::pair_tree;

verus! {

/// One arena slot: an atom's bytes, or a pair of two earlier slots.
pub enum ArenaNode {
    Atom(Vec<u8>),
    Pair(usize, usize),
}

/// Error type of the arena builder.  The arena never fails: no operation
/// ever returns a value of this type.
#[derive(Debug)]
pub struct ArenaError {}

/// An arena-backed builder: nodes live in a vector, a handle is an index,
/// and a pair always points at two strictly earlier slots.
pub struct ArenaSexpBuilder {
    nodes: Vec<ArenaNode>,
}

/// The tree that slot `i` of `nodes` stands for.  Pairs only ever point
/// below themselves, so the recursion descends the index.
pub open spec fn view_at(nodes: Seq<ArenaNode>, i: int) -> Tree
    decreases i,
{
    if 0 <= i < nodes.len() {
        match nodes[i] {
            ArenaNode::Atom(v) => Tree::Atom(v@),
            ArenaNode::Pair(a, b) => if a < i && b < i {
                pair_tree(view_at(nodes, a as int), view_at(nodes, b as int))
            } else {
                nil_tree()
            },
        }
    } else {
        nil_tree()
    }
}

/// With equal prefixes, a slot below both lengths has the same view.
proof fn lemma_view_at_prefix(n1: Seq<ArenaNode>, n2: Seq<ArenaNode>, i: int)
    requires
        n1.len() <= n2.len(),
        forall|j: int| 0 <= j < n1.len() ==> n1[j] == n2[j],
        0 <= i < n1.len(),
    ensures
        view_at(n1, i) == view_at(n2, i),
    decreases i,
{
    match n1[i] {
        ArenaNode::Atom(_) => {},
        ArenaNode::Pair(a, b) => {
            if a < i && b < i {
                lemma_view_at_prefix(n1, n2, a as int);
                lemma_view_at_prefix(n1, n2, b as int);
            }
        },
    }
}

impl ArenaSexpBuilder {
    /// A fresh arena with no nodes.
    pub fn new() -> (r: Self)
        ensures
            r.wf(),
            r.node_count() == 0,
    {
        ArenaSexpBuilder { nodes: Vec::new() }
    }

    /// How many nodes the arena holds.
    pub closed spec fn node_count(&self) -> nat {
        self.nodes@.len()
    }

    /// Read a node without consuming it; the arena never fails to
    /// decompose a handle it understands.
    pub fn content_of(&self, value: usize) -> (r: SexpContent<usize>)
        requires
            self.wf(),
            self.node_wf(value),
        ensures
            (match r {
                SexpContent::SexpTypeAtom(bs) => self.view_of(value) == Tree::Atom(bs@),
                SexpContent::SexpTypeCons(a, b) => {
                    &&& self.node_wf(a)
                    &&& self.node_wf(b)
                    &&& self.view_of(value) == pair_tree(self.view_of(a), self.view_of(b))
                },
            }),
    {
        match &self.nodes[value] {
            ArenaNode::Atom(bs) => SexpContent::SexpTypeAtom(bs.clone()),
            ArenaNode::Pair(a, b) => SexpContent::SexpTypeCons(*a, *b),
        }
    }

    /// Add a nil leaf; the arena never fails.
    pub fn push_nil(&mut self) -> (r: usize)
        requires
            old(self).wf(),
        ensures
            final(self).wf(),
            final(self).extends(old(self)),
            final(self).node_wf(r),
            final(self).view_of(r) == Tree::Atom(Seq::<u8>::empty()),
    {
        let idx = self.nodes.len();
        self.nodes.push(ArenaNode::Atom(Vec::new()));
        proof {
            assert(self.nodes@.drop_last() =~= old(self).nodes@);
        }
        idx
    }

    /// Add an atom leaf carrying the given bytes; the arena never fails.
    pub fn push_atom(&mut self, bytes: &[u8]) -> (r: usize)
        requires
            old(self).wf(),
        ensures
            final(self).wf(),
            final(self).extends(old(self)),
            final(self).node_wf(r),
            final(self).view_of(r) == Tree::Atom(bytes@),
    {
        let idx = self.nodes.len();
        let mut v: Vec<u8> = Vec::new();
        let mut i: usize = 0;
        while i < bytes.len()
            invariant
                i <= bytes@.len(),
                v@ == bytes@.subrange(0, i as int),
            decreases bytes@.len() - i,
        {
            v.push(bytes[i]);
            i = i + 1;
            proof {
                assert(v@ =~= bytes@.subrange(0, i as int));
            }
        }
        proof {
            assert(v@ =~= bytes@);
        }
        self.nodes.push(ArenaNode::Atom(v));
        proof {
            assert(self.nodes@.drop_last() =~= old(self).nodes@);
        }
        idx
    }

    /// Add a pair of two existing nodes; the arena never fails.
    pub fn push_pair(&mut self, some: usize, other: usize) -> (r: usize)
        requires
            old(self).wf(),
            old(self).node_wf(some),
            old(self).node_wf(other),
        ensures
            final(self).wf(),
            final(self).extends(old(self)),
            final(self).node_wf(r),
            final(self).view_of(r) == pair_tree(old(self).view_of(some), old(self).view_of(other)),
    {
        let idx = self.nodes.len();
        self.nodes.push(ArenaNode::Pair(some, other));
        proof {
            lemma_view_at_prefix(self.nodes@.drop_last(), self.nodes@, some as int);
            lemma_view_at_prefix(self.nodes@.drop_last(), self.nodes@, other as int);
            assert(self.nodes@.drop_last() =~= old(self).nodes@);
        }
        idx
    }
}

impl SexpBuilder<usize, ArenaError> for ArenaSexpBuilder {
    closed spec fn wf(&self) -> bool {
        forall|i: int|
            0 <= i < self.nodes@.len() ==> match #[trigger] self.nodes@[i] {
                ArenaNode::Atom(_) => true,
                ArenaNode::Pair(a, b) => a < i && b < i,
            }
    }

    closed spec fn node_wf(&self, n: usize) -> bool {
        n < self.nodes@.len()
    }

    closed spec fn view_of(&self, n: usize) -> Tree {
        view_at(self.nodes@, n as int)
    }

    closed spec fn extends(&self, prev: &Self) -> bool {
        &&& prev.nodes@.len() <= self.nodes@.len()
        &&& forall|j: int| 0 <= j < prev.nodes@.len() ==> prev.nodes@[j] == self.nodes@[j]
    }

    proof fn lemma_extends_refl(&self) {
    }

    proof fn lemma_extends_trans(&self, mid: &Self, first: &Self) {
    }

    proof fn lemma_extends_node(&self, prev: &Self, n: usize) {
        lemma_view_at_prefix(prev.nodes@, self.nodes@, n as int);
    }

    fn destructure(&mut self, value: usize) -> (r: Result<SexpContent<usize>, ArenaError>) {
        Ok(self.content_of(value))
    }

    fn make_cons(&mut self, some: usize, other: usize) -> (r: Result<usize, ArenaError>) {
        Ok(self.push_pair(some, other))
    }

    fn make_nil(&mut self) -> (r: usize) {
        self.push_nil()
    }

    fn make_atom(&mut self, bytes: &[u8]) -> (r: Result<usize, ArenaError>) {
        Ok(self.push_atom(bytes))
    }
}

} // verus!
