//! Byte-level BLS point operators: negation of serialized G1 and G2
//! points, which flips one sign bit and never touches curve arithmetic.

use vstd::prelude::*;
use crate::arena::ArenaSexpBuilder;
use crate::builder::SexpBuilder;
use crate::builder::SexpContent;
use crate::tree::Tree;

verus! {

/// The same cost as flipping the top bit, minus the heap allocation of
/// the return value, which the operator adds back.
pub const BLS_G1_NEGATE_BASE_COST: u64 = 1396 - 480;

pub const BLS_G2_NEGATE_BASE_COST: u64 = 2164 - 960;

pub const MALLOC_COST_PER_BYTE: u64 = 10;

/// An evaluation failure: the node at fault, and a message.
#[derive(Debug)]
pub struct EvalErr(pub usize, pub String);

/// The bytes of the sole atom argument, when the argument list is one
/// atom followed by a non-pair terminator.
pub open spec fn spec_single_atom_arg(t: Tree) -> Option<Seq<u8>> {
    match t {
        Tree::Pair(f, r) => match *f {
            Tree::Atom(blob) => match *r {
                Tree::Atom(_) => Some(blob),
                Tree::Pair(_, _) => None,
            },
            Tree::Pair(_, _) => None,
        },
        Tree::Atom(_) => None,
    }
}

/// A serialized point, negated: compressed infinity passes through
/// unchanged, anything else has its sign bit flipped.
pub open spec fn spec_negate_blob(blob: Seq<u8>) -> Seq<u8> {
    if blob[0] & 0xe0 == 0xc0 {
        blob
    } else {
        blob.update(0, blob[0] ^ 0x20)
    }
}

/// Negate a serialized G1 point: the argument list must hold exactly one
/// atom, of exactly 48 bytes.  The point is not otherwise validated.
pub fn op_bls_g1_negate(a: &mut ArenaSexpBuilder, input: usize, _max_cost: u64) -> (r: Result<
    (u64, usize),
    EvalErr,
>)
    requires
        old(a).wf(),
        old(a).node_wf(input),
    ensures
        final(a).wf(),
        final(a).extends(old(a)),
        r is Ok <==> (spec_single_atom_arg(old(a).view_of(input)) matches Some(blob)
            && blob.len() == 48),
        r matches Ok(p) ==> (spec_single_atom_arg(old(a).view_of(input)) matches Some(blob)
            && p.0 == BLS_G1_NEGATE_BASE_COST + 48 * MALLOC_COST_PER_BYTE && final(a).node_wf(
            p.1,
        ) && final(a).view_of(p.1) == Tree::Atom(spec_negate_blob(blob))),
{
    op_bls_negate_sized(a, input, 48, BLS_G1_NEGATE_BASE_COST)
}

/// Negate a serialized G2 point: the argument list must hold exactly one
/// atom, of exactly 96 bytes.  The point is not otherwise validated.
pub fn op_bls_g2_negate(a: &mut ArenaSexpBuilder, input: usize, _max_cost: u64) -> (r: Result<
    (u64, usize),
    EvalErr,
>)
    requires
        old(a).wf(),
        old(a).node_wf(input),
    ensures
        final(a).wf(),
        final(a).extends(old(a)),
        r is Ok <==> (spec_single_atom_arg(old(a).view_of(input)) matches Some(blob)
            && blob.len() == 96),
        r matches Ok(p) ==> (spec_single_atom_arg(old(a).view_of(input)) matches Some(blob)
            && p.0 == BLS_G2_NEGATE_BASE_COST + 96 * MALLOC_COST_PER_BYTE && final(a).node_wf(
            p.1,
        ) && final(a).view_of(p.1) == Tree::Atom(spec_negate_blob(blob))),
{
    op_bls_negate_sized(a, input, 96, BLS_G2_NEGATE_BASE_COST)
}

/// The shared negation: check the argument shape and size, pass
/// compressed infinity through as the same node, otherwise flip the sign
/// bit in a fresh atom.
fn op_bls_negate_sized(a: &mut ArenaSexpBuilder, input: usize, size: usize, base_cost: u64) -> (r:
    Result<(u64, usize), EvalErr>)
    requires
        old(a).wf(),
        old(a).node_wf(input),
        size == 48 || size == 96,
        base_cost <= 10000,
    ensures
        final(a).wf(),
        final(a).extends(old(a)),
        r is Ok <==> (spec_single_atom_arg(old(a).view_of(input)) matches Some(blob)
            && blob.len() == size),
        r matches Ok(p) ==> (spec_single_atom_arg(old(a).view_of(input)) matches Some(blob)
            && p.0 == base_cost + (size as u64) * MALLOC_COST_PER_BYTE && final(a).node_wf(p.1)
            && final(a).view_of(p.1) == Tree::Atom(spec_negate_blob(blob))),
{
    let (first, rest) = match a.content_of(input) {
        SexpContent::SexpTypeCons(f, rst) => (f, rst),
        SexpContent::SexpTypeAtom(_) => {
            proof {
                a.lemma_extends_refl();
            }
            return Err(EvalErr(input, String::new()));
        },
    };
    match a.content_of(rest) {
        SexpContent::SexpTypeAtom(_) => {},
        SexpContent::SexpTypeCons(_x, _y) => {
            proof {
                a.lemma_extends_refl();
            }
            return Err(EvalErr(input, "takes exactly 1 argument".to_string()));
        },
    }
    let blob = match a.content_of(first) {
        SexpContent::SexpTypeAtom(v) => v,
        SexpContent::SexpTypeCons(_x, _y) => {
            proof {
                a.lemma_extends_refl();
            }
            return Err(EvalErr(first, "expected an atom".to_string()));
        },
    };
    if blob.len() != size {
        proof {
            a.lemma_extends_refl();
        }
        return Err(EvalErr(first, "atom is not point size".to_string()));
    }
    if (blob[0] & 0xe0) == 0xc0 {
        proof {
            a.lemma_extends_refl();
        }
        Ok((base_cost + (size as u64) * MALLOC_COST_PER_BYTE, first))
    } else {
        let mut nb = blob;
        let b0 = nb[0];
        nb[0] = b0 ^ 0x20;
        proof {
            assert(nb@ =~= spec_negate_blob(old(a).view_of(first)->Atom_0));
        }
        let n = a.push_atom(nb.as_slice());
        Ok((base_cost + (size as u64) * MALLOC_COST_PER_BYTE, n))
    }
}

} // verus!
