//! Laws of the synthesis pipeline, stated and proved once for every genome
//! and prototype.

use vstd::prelude::*;
use crate::model::ChainsView;
use crate::model::base_cursor;
use crate::model::chains_of;
use crate::model::spec_synth;
use crate::model::spec_synthesize;
use crate::genome::GenomeView;
use crate::tree::Tree;
use crate::tree::nil_tree;
use crate::tree::pair_tree;
use crate::tree::shape_matches;

verus! {

/// Shape preservation along a synthesis walk: the output's pair/atom
/// branching matches the prototype's exactly, except below the
/// prototype's non-empty atom leaves; nil leaves stay nil.
proof fn lemma_synth_shape(ch: ChainsView, choices: Seq<usize>, k: nat, proto: Tree)
    ensures
        shape_matches(proto, spec_synth(ch, choices, k, proto).0),
    decreases proto,
{
    match proto {
        Tree::Atom(bytes) => {
            if bytes.len() == 0 {
                assert(spec_synth(ch, choices, k, proto).0 == nil_tree());
            }
        },
        Tree::Pair(l, r) => {
            let rr = spec_synth(ch, choices, k, *r);
            let rl = spec_synth(ch, choices, rr.1, *l);
            lemma_synth_shape(ch, choices, k, *r);
            lemma_synth_shape(ch, choices, rr.1, *l);
            assert(spec_synth(ch, choices, k, proto).0 == pair_tree(rl.0, rr.0));
        },
    }
}

/// Shape preservation: for every genome and prototype, the synthesized
/// tree's pair/atom branching matches the prototype's branching exactly,
/// except at the prototype's non-empty atom leaves, and the prototype's
/// own nil leaves are never replaced.
pub proof fn lemma_shape_preservation(g: GenomeView, proto: Tree)
    ensures
        shape_matches(proto, spec_synthesize(g, proto)),
{
    lemma_synth_shape(chains_of(g), g.choices, base_cursor(g), proto);
}

/// Determinism: the synthesized tree is a pure function of the genome's
/// and the prototype's models alone, so equal inputs always yield equal
/// output, across repeated calls and regardless of which builder carries
/// out the construction.
pub proof fn lemma_synthesis_deterministic(
    g1: GenomeView,
    g2: GenomeView,
    p1: Tree,
    p2: Tree,
)
    requires
        g1 == g2,
        p1 == p2,
    ensures
        spec_synthesize(g1, p1) == spec_synthesize(g2, p2),
{
}

/// Index safety: every chain lookup reduces its index modulo the chain's
/// current length, so the index used is always strictly below that
/// length.
pub proof fn lemma_chain_lookup_in_range(idx: nat, len: nat)
    requires
        len >= 1,
    ensures
        idx % len < len,
{
}

} // verus!
