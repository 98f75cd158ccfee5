//! The structure genome: four seed pools decoded from raw entropy, plus a
//! read limit.

use vstd::prelude::*;
use crate::entropy::EntropySource;
use crate::entropy::stream_first;
use crate::entropy::stream_rest;

verus! {

/// Maximum number of entropy words absorbed when nothing in the stream
/// signals termination.
pub const DEFAULT_READ_MAX: usize = 512;

/// Mathematical model of a genome: the four seed pools in decode order, and
/// the read limit the genome was built with.
pub struct GenomeView {
    pub choices: Seq<usize>,
    pub atoms: Seq<usize>,
    pub conses: Seq<usize>,
    pub lists: Seq<usize>,
    pub read_max: nat,
}

/// A genome with empty pools.
pub open spec fn empty_genome(read_max: nat) -> GenomeView {
    GenomeView {
        choices: Seq::empty(),
        atoms: Seq::empty(),
        conses: Seq::empty(),
        lists: Seq::empty(),
        read_max,
    }
}

/// Append one 16-bit half-word to the pool its low two bits select; the
/// remaining fourteen bits are the pooled value.
pub open spec fn genome_push(g: GenomeView, h: usize) -> GenomeView {
    let kind = h & 3;
    let value = h >> 2;
    if kind == 0 {
        GenomeView {
            choices: g.choices.push(value),
            atoms: g.atoms,
            conses: g.conses,
            lists: g.lists,
            read_max: g.read_max,
        }
    } else if kind == 1 {
        GenomeView {
            choices: g.choices,
            atoms: g.atoms.push(value),
            conses: g.conses,
            lists: g.lists,
            read_max: g.read_max,
        }
    } else if kind == 2 {
        GenomeView {
            choices: g.choices,
            atoms: g.atoms,
            conses: g.conses.push(value),
            lists: g.lists,
            read_max: g.read_max,
        }
    } else {
        GenomeView {
            choices: g.choices,
            atoms: g.atoms,
            conses: g.conses,
            lists: g.lists.push(value),
            read_max: g.read_max,
        }
    }
}

/// Absorb one 32-bit word: its two half-words, high half first.
pub open spec fn absorb_word(g: GenomeView, w: u32) -> GenomeView {
    genome_push(genome_push(g, (w >> 16u32) as usize), (w & 0xffffu32) as usize)
}

/// Run the decoder over a word stream: stop on the all-zero sentinel word
/// or once `budget` words have been absorbed.  Yields the final genome and
/// what is left of the stream.
pub open spec fn run_decode(g: GenomeView, ws: Seq<u32>, budget: nat) -> (GenomeView, Seq<u32>)
    decreases ws.len(),
{
    if ws.len() == 0 {
        (g, ws)
    } else if ws[0] == 0 || budget == 0 {
        (g, ws.drop_first())
    } else {
        run_decode(absorb_word(g, ws[0]), ws.drop_first(), (budget - 1) as nat)
    }
}

/// The genome decoded from a word stream under a read limit.
pub open spec fn decoded_genome(ws: Seq<u32>, read_max: nat) -> GenomeView {
    run_decode(empty_genome(read_max), ws, read_max).0
}

/// The four seed pools absorbed from raw entropy, and the read limit.
/// Immutable once built.
pub struct CollectArgumentStructure {
    pub(crate) choices: Vec<usize>,
    pub(crate) atoms: Vec<usize>,
    pub(crate) conses: Vec<usize>,
    pub(crate) lists: Vec<usize>,
    pub(crate) read_max: usize,
}

impl View for CollectArgumentStructure {
    type V = GenomeView;

    open(crate) spec fn view(&self) -> GenomeView {
        GenomeView {
            choices: self.choices@,
            atoms: self.atoms@,
            conses: self.conses@,
            lists: self.lists@,
            read_max: self.read_max as nat,
        }
    }
}

impl Default for CollectArgumentStructure {
    /// A genome with empty pools and the default read limit.
    fn default() -> (r: Self)
        ensures
            r@ == empty_genome(DEFAULT_READ_MAX as nat),
    {
        CollectArgumentStructure {
            choices: Vec::new(),
            atoms: Vec::new(),
            conses: Vec::new(),
            lists: Vec::new(),
            read_max: DEFAULT_READ_MAX,
        }
    }
}

impl CollectArgumentStructure {
    /// A genome with empty pools; `read_max` bounds how many entropy words
    /// a later decode may absorb.
    pub fn new(read_max: usize) -> (r: Self)
        ensures
            r@ == empty_genome(read_max as nat),
    {
        CollectArgumentStructure {
            choices: Vec::new(),
            atoms: Vec::new(),
            conses: Vec::new(),
            lists: Vec::new(),
            read_max,
        }
    }

    /// A genome supplied directly from its four pools, bypassing the
    /// entropy decoder; pool values are unrestricted.
    pub fn from_pools(
        choices: Vec<usize>,
        atoms: Vec<usize>,
        conses: Vec<usize>,
        lists: Vec<usize>,
        read_max: usize,
    ) -> (r: Self)
        ensures
            r@ == (GenomeView {
                choices: choices@,
                atoms: atoms@,
                conses: conses@,
                lists: lists@,
                read_max: read_max as nat,
            }),
    {
        CollectArgumentStructure { choices, atoms, conses, lists, read_max }
    }

    /// The read limit this genome was built with.
    pub fn read_max(&self) -> (r: usize)
        ensures
            r as nat == self@.read_max,
    {
        self.read_max
    }

    /// Decode a genome from an entropy source: read words until the
    /// all-zero sentinel, or until `read_max` words have been absorbed;
    /// split each absorbed word into two half-words, high half first, and
    /// pool each half-word by its low two bits.
    pub fn decode<S: EntropySource>(source: &mut S, read_max: usize) -> (r: Self)
        ensures
            r@ == decoded_genome(old(source).stream(), read_max as nat),
            final(source).stream() == run_decode(
                empty_genome(read_max as nat),
                old(source).stream(),
                read_max as nat,
            ).1,
    {
        let ghost ws0 = source.stream();
        let ghost target = run_decode(empty_genome(read_max as nat), ws0, read_max as nat);
        let mut cas = CollectArgumentStructure::new(read_max);
        let mut iters: usize = 0;
        loop
            invariant_except_break
                run_decode(cas@, source.stream(), (read_max - iters) as nat) == target,
            invariant
                iters <= read_max,
                cas@.read_max == read_max as nat,
                target == run_decode(empty_genome(read_max as nat), ws0, read_max as nat),
            ensures
                cas@ == target.0,
                source.stream() == target.1,
            decreases source.stream().len(),
        {
            let ghost ws_pre = source.stream();
            let ghost budget = (read_max - iters) as nat;
            let w = source.next_word();
            proof {
                assert(w == stream_first(ws_pre));
                assert(source.stream() == stream_rest(ws_pre));
            }
            if w == 0 {
                proof {
                    if ws_pre.len() == 0 {
                        assert(run_decode(cas@, ws_pre, budget) == (cas@, ws_pre));
                    } else {
                        assert(ws_pre[0] == 0);
                        assert(run_decode(cas@, ws_pre, budget) == (cas@, ws_pre.drop_first()));
                    }
                }
                break ;
            }
            if iters >= read_max {
                proof {
                    assert(ws_pre.len() > 0 && ws_pre[0] != 0);
                    assert(budget == 0);
                    assert(run_decode(cas@, ws_pre, budget) == (cas@, ws_pre.drop_first()));
                }
                break ;
            }
            iters = iters + 1;
            let ghost cas_pre = cas@;
            let hi = (w >> 16u32) as usize;
            let lo = (w & 0xffffu32) as usize;
            cas.absorb_half(hi);
            cas.absorb_half(lo);
            proof {
                assert(ws_pre.len() > 0 && ws_pre[0] == w && w != 0);
                assert(budget > 0);
                assert(cas@ == absorb_word(cas_pre, w));
                assert(run_decode(cas_pre, ws_pre, budget) == run_decode(
                    absorb_word(cas_pre, w),
                    ws_pre.drop_first(),
                    (budget - 1) as nat,
                ));
            }
        }
        cas
    }

    /// Pool one 16-bit half-word by its low two bits.
    fn absorb_half(&mut self, h: usize)
        ensures
            final(self)@ == genome_push(old(self)@, h),
    {
        let kind = h & 3;
        let value = h >> 2;
        if kind == 0 {
            self.choices.push(value);
        } else if kind == 1 {
            self.atoms.push(value);
        } else if kind == 2 {
            self.conses.push(value);
        } else {
            self.lists.push(value);
        }
    }
}

} // verus!
