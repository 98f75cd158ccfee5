//! The canonical binary tree encoding, used to express and check test
//! fixtures: nil is a single reserved byte, a pair is a marker byte
//! followed by its two encoded children, a short atom is its literal byte,
//! and longer atoms are length-prefixed.

use vstd::prelude::*;
use crate::arena::ArenaSexpBuilder;
use crate::builder::SexpBuilder;
use crate::builder::SexpContent;
use crate::bytes::Bytes;
use crate::bytes::BytesFromType;
use crate::tree::Tree;
use crate::tree::nil_tree;
use crate::tree::tree_size;
use crate::tree::pair_tree;

verus! {

pub const MAX_SINGLE_BYTE: u8 = 0x7f;

pub const CONS_BOX_MARKER: u8 = 0xff;

/// The length prefix for an atom of `sz` bytes: the count of leading set
/// bits in the first byte is the number of size bytes.
pub open spec fn spec_size_header(sz: u64) -> Seq<u8> {
    if sz < 0x40 {
        seq![(0x80u64 | sz) as u8]
    } else if sz < 0x2000 {
        seq![(0xC0u64 | (sz >> 8u64)) as u8, (sz & 0xffu64) as u8]
    } else if sz < 0x100000 {
        seq![
            (0xE0u64 | (sz >> 16u64)) as u8,
            ((sz >> 8u64) & 0xffu64) as u8,
            (sz & 0xffu64) as u8,
        ]
    } else if sz < 0x8000000 {
        seq![
            (0xF0u64 | (sz >> 24u64)) as u8,
            ((sz >> 16u64) & 0xffu64) as u8,
            ((sz >> 8u64) & 0xffu64) as u8,
            (sz & 0xffu64) as u8,
        ]
    } else {
        seq![
            (0xF8u64 | (sz >> 32u64)) as u8,
            ((sz >> 24u64) & 0xffu64) as u8,
            ((sz >> 16u64) & 0xffu64) as u8,
            ((sz >> 8u64) & 0xffu64) as u8,
            (sz & 0xffu64) as u8,
        ]
    }
}

/// The encoding of one atom: nil is 0x80, a single small byte stands for
/// itself, and anything else is a length prefix followed by the bytes.
pub open spec fn spec_atom_encoding(bs: Seq<u8>) -> Seq<u8> {
    if bs.len() == 0 {
        seq![0x80u8]
    } else if bs.len() == 1 && bs[0] <= 0x7f {
        bs
    } else {
        spec_size_header(bs.len() as u64) + bs
    }
}

/// A tree is encodable when every atom is below the size cap.
pub open spec fn spec_encodable(t: Tree) -> bool
    decreases t,
{
    match t {
        Tree::Atom(bs) => bs.len() < 0x400000000,
        Tree::Pair(l, r) => spec_encodable(*l) && spec_encodable(*r),
    }
}

/// The canonical encoding of a tree.
pub open spec fn spec_encode(t: Tree) -> Seq<u8>
    decreases t,
{
    match t {
        Tree::Atom(bs) => spec_atom_encoding(bs),
        Tree::Pair(l, r) => seq![CONS_BOX_MARKER] + spec_encode(*l) + spec_encode(*r),
    }
}

/// Produce the length prefix of an atom, and whether the atom's bytes
/// follow it; oversize atoms are unrepresentable.
pub fn atom_size_blob(b: &Bytes) -> (r: Result<(bool, Vec<u8>), String>)
    ensures
        r is Ok <==> b@.len() < 0x400000000,
        r matches Ok(p) ==> {
            if b@.len() == 0 {
                !p.0 && p.1@ == seq![0x80u8]
            } else if b@.len() == 1 && b@[0] <= 0x7f {
                !p.0 && p.1@ == b@
            } else {
                p.0 && p.1@ == spec_size_header(b@.len() as u64)
            }
        },
{
    let size = b.length();
    let sz = size as u64;
    if size == 0 {
        let mut v: Vec<u8> = Vec::new();
        v.push(0x80);
        proof {
            assert(v@ =~= seq![0x80u8]);
        }
        return Ok((false, v));
    } else if size == 1 && b.at(0) <= MAX_SINGLE_BYTE {
        let v = b.data().clone();
        return Ok((false, v));
    }
    if sz < 0x40 {
        let mut v: Vec<u8> = Vec::new();
        v.push((0x80u64 | sz) as u8);
        proof {
            assert(v@ =~= spec_size_header(sz));
        }
        Ok((true, v))
    } else if sz < 0x2000 {
        let mut v: Vec<u8> = Vec::new();
        v.push((0xC0u64 | (sz >> 8u64)) as u8);
        v.push((sz & 0xffu64) as u8);
        proof {
            assert(v@ =~= spec_size_header(sz));
        }
        Ok((true, v))
    } else if sz < 0x100000 {
        let mut v: Vec<u8> = Vec::new();
        v.push((0xE0u64 | (sz >> 16u64)) as u8);
        v.push(((sz >> 8u64) & 0xffu64) as u8);
        v.push((sz & 0xffu64) as u8);
        proof {
            assert(v@ =~= spec_size_header(sz));
        }
        Ok((true, v))
    } else if sz < 0x8000000 {
        let mut v: Vec<u8> = Vec::new();
        v.push((0xF0u64 | (sz >> 24u64)) as u8);
        v.push(((sz >> 16u64) & 0xffu64) as u8);
        v.push(((sz >> 8u64) & 0xffu64) as u8);
        v.push((sz & 0xffu64) as u8);
        proof {
            assert(v@ =~= spec_size_header(sz));
        }
        Ok((true, v))
    } else if sz < 0x400000000 {
        let mut v: Vec<u8> = Vec::new();
        v.push((0xF8u64 | (sz >> 32u64)) as u8);
        v.push(((sz >> 24u64) & 0xffu64) as u8);
        v.push(((sz >> 16u64) & 0xffu64) as u8);
        v.push(((sz >> 8u64) & 0xffu64) as u8);
        v.push((sz & 0xffu64) as u8);
        proof {
            assert(v@ =~= spec_size_header(sz));
        }
        Ok((true, v))
    } else {
        Err("oversize bytes is unrepresentable".to_string())
    }
}

/// A byte buffer with a read position: writes append at the end, reads
/// advance the position and stop at the end.
pub struct Stream {
    data: Vec<u8>,
    seek: usize,
}

impl Stream {
    /// The whole buffer.
    pub closed spec fn bytes(&self) -> Seq<u8> {
        self.data@
    }

    /// The read position.
    pub closed spec fn pos(&self) -> nat {
        self.seek as nat
    }

    /// The position never passes the end.
    pub closed spec fn wf(&self) -> bool {
        self.seek <= self.data@.len()
    }

    /// What is left to read.
    pub open spec fn remaining(&self) -> Seq<u8> {
        self.bytes().skip(self.pos() as int)
    }

    /// A stream over the given bytes, positioned at the start.
    pub fn new(data: Vec<u8>) -> (r: Self)
        ensures
            r.wf(),
            r.bytes() == data@,
            r.pos() == 0,
    {
        Stream { data, seek: 0 }
    }

    /// Append bytes at the end of the buffer.
    pub fn write(&mut self, b: Bytes)
        requires
            old(self).wf(),
        ensures
            final(self).wf(),
            final(self).bytes() == old(self).bytes() + b@,
            final(self).pos() == old(self).pos(),
    {
        let n = b.length();
        let mut i: usize = 0;
        while i < n
            invariant
                n == b@.len(),
                i <= n,
                self.seek == old(self).seek,
                self.data@ == old(self).data@ + b@.subrange(0, i as int),
                self.seek <= old(self).data@.len(),
            decreases n - i,
        {
            self.data.push(b.at(i));
            i = i + 1;
            proof {
                assert(self.data@ =~= old(self).data@ + b@.subrange(0, i as int));
            }
        }
        proof {
            assert(self.data@ =~= old(self).data@ + b@);
        }
    }

    /// The whole buffer as a byte string.
    pub fn get_value(&self) -> (r: Bytes)
        ensures
            r@ == self.bytes(),
    {
        Bytes::new(Some(BytesFromType::Raw(self.data.clone())))
    }

    /// How many bytes a read of `size` yields.
    pub open spec fn spec_take(len: nat, pos: nat, size: usize) -> nat {
        if pos >= len {
            0nat
        } else if size <= len - pos {
            size as nat
        } else {
            (len - pos) as nat
        }
    }

    /// Read up to `size` bytes, advancing the position by what was read.
    pub fn read(&mut self, size: usize) -> (r: Bytes)
        requires
            old(self).wf(),
        ensures
            final(self).wf(),
            final(self).bytes() == old(self).bytes(),
            ({
                let take = Self::spec_take(old(self).bytes().len(), old(self).pos(), size);
                &&& r@ == old(self).bytes().subrange(
                    old(self).pos() as int,
                    old(self).pos() + take as int,
                )
                &&& final(self).pos() == old(self).pos() + take
            }),
    {
        if self.seek >= self.data.len() {
            let r = Bytes::new(None);
            proof {
                assert(old(self).bytes().subrange(
                    old(self).pos() as int,
                    old(self).pos() as int,
                ) =~= Seq::<u8>::empty());
            }
            return r;
        }
        let take: usize = if size <= self.data.len() - self.seek {
            size
        } else {
            self.data.len() - self.seek
        };
        let mut v: Vec<u8> = Vec::new();
        let mut i: usize = 0;
        while i < take
            invariant
                self.data@ == old(self).data@,
                self.seek == old(self).seek,
                self.seek + take <= self.data@.len(),
                self.seek + take <= usize::MAX,
                i <= take,
                v@ == self.data@.subrange(self.seek as int, self.seek + i),
            decreases take - i,
        {
            v.push(self.data[self.seek + i]);
            i = i + 1;
            proof {
                assert(v@ =~= self.data@.subrange(self.seek as int, self.seek + i));
            }
        }
        self.seek = self.seek + take;
        Bytes::new(Some(BytesFromType::Raw(v)))
    }
}

/// Write the canonical encoding of the tree under `sexp` onto the stream:
/// pairs emit the marker then both children in order, atoms emit their
/// prefix and bytes.  Fails exactly when an oversize atom occurs; what was
/// already written stays in the stream.
pub fn sexp_to_stream(allocator: &ArenaSexpBuilder, sexp: usize, f: &mut Stream) -> (r: Result<
    (),
    String,
>)
    requires
        allocator.wf(),
        allocator.node_wf(sexp),
        old(f).wf(),
    ensures
        final(f).wf(),
        final(f).pos() == old(f).pos(),
        r is Ok <==> spec_encodable(allocator.view_of(sexp)),
        r is Ok ==> final(f).bytes() == old(f).bytes() + spec_encode(allocator.view_of(sexp)),
    decreases tree_size(allocator.view_of(sexp)),
{
    let ghost t = allocator.view_of(sexp);
    match allocator.content_of(sexp) {
        SexpContent::SexpTypeAtom(buf) => {
            let ghost bs = buf@;
            let bytes = Bytes::new(Some(BytesFromType::Raw(buf)));
            match atom_size_blob(&bytes) {
                Ok((with_tail, header)) => {
                    let ghost h = header@;
                    f.write(Bytes::new(Some(BytesFromType::Raw(header))));
                    if with_tail {
                        f.write(bytes);
                        proof {
                            assert(f.bytes() =~= old(f).bytes() + (h + bs));
                            assert(spec_encode(t) == h + bs);
                        }
                    } else {
                        proof {
                            assert(spec_encode(t) == h);
                        }
                    }
                    Ok(())
                },
                Err(e) => Err(e),
            }
        },
        SexpContent::SexpTypeCons(left, right) => {
            let mut marker: Vec<u8> = Vec::new();
            marker.push(CONS_BOX_MARKER);
            f.write(Bytes::new(Some(BytesFromType::Raw(marker))));
            let ghost tl = allocator.view_of(left);
            let ghost tr = allocator.view_of(right);
            proof {
                assert(t == pair_tree(tl, tr));
                assert(tree_size(t) == 1 + tree_size(tl) + tree_size(tr));
            }
            let ghost after_marker = f.bytes();
            match sexp_to_stream(allocator, left, f) {
                Ok(_u) => {},
                Err(e) => {
                    return Err(e);
                },
            }
            let ghost after_left = f.bytes();
            match sexp_to_stream(allocator, right, f) {
                Ok(_u) => {},
                Err(e) => {
                    return Err(e);
                },
            }
            proof {
                assert(after_marker =~= old(f).bytes() + seq![CONS_BOX_MARKER]);
                assert(f.bytes() =~= old(f).bytes() + (seq![CONS_BOX_MARKER] + spec_encode(tl)
                    + spec_encode(tr)));
                assert(spec_encode(t) == seq![CONS_BOX_MARKER] + spec_encode(tl) + spec_encode(
                    tr,
                ));
            }
            Ok(())
        },
    }
}

/// The count of leading set bits in an atom's first header byte.
pub open spec fn spec_ones_count(b: u8) -> int {
    if b < 0x80 {
        0
    } else if b < 0xc0 {
        1
    } else if b < 0xe0 {
        2
    } else if b < 0xf0 {
        3
    } else if b < 0xf8 {
        4
    } else if b < 0xfc {
        5
    } else if b < 0xfe {
        6
    } else if b < 0xff {
        7
    } else {
        8
    }
}

/// The header byte with its leading set bits cleared.
pub open spec fn spec_cleared(b: u8) -> u8 {
    if b < 0x80 {
        b
    } else if b < 0xc0 {
        (b - 0x80) as u8
    } else if b < 0xe0 {
        (b - 0xc0) as u8
    } else if b < 0xf0 {
        (b - 0xe0) as u8
    } else if b < 0xf8 {
        (b - 0xf0) as u8
    } else if b < 0xfc {
        (b - 0xf8) as u8
    } else if b < 0xfe {
        (b - 0xfc) as u8
    } else if b < 0xff {
        (b - 0xfe) as u8
    } else {
        0
    }
}

/// A big-endian unsigned value folded over at most eight bytes; longer
/// inputs keep only the low 64 bits.
pub open spec fn spec_be_u64(s: Seq<u8>) -> u64
    decreases s.len(),
{
    if s.len() == 0 {
        0u64
    } else {
        (spec_be_u64(s.drop_last()) << 8u64) | (s.last() as u64)
    }
}

/// Parse one atom whose header byte `b` was already consumed: `s` is the
/// stream after it, and the consumed count excludes the header byte.
pub open spec fn spec_parse_atom(b: u8, s: Seq<u8>) -> Option<(Tree, nat)> {
    if b == 0x80 {
        Some((nil_tree(), 0nat))
    } else if b <= 0x7f {
        Some((Tree::Atom(seq![b]), 0nat))
    } else {
        let cnt = spec_ones_count(b);
        if s.len() < cnt - 1 {
            None
        } else {
            let size_blob = seq![spec_cleared(b)] + s.take(cnt - 1);
            let size = spec_be_u64(size_blob);
            if size >= 0x400000000 || size > usize::MAX as u64 {
                None
            } else {
                let rest = s.skip(cnt - 1);
                if rest.len() < size {
                    None
                } else {
                    Some((Tree::Atom(rest.take(size as int)), (cnt - 1 + size) as nat))
                }
            }
        }
    }
}

/// Parse one tree from the front of a byte string: the marker byte opens
/// a pair of two parsed children; any other first byte opens an atom.
/// Yields the tree and the count of bytes consumed, or nothing when the
/// bytes are not a valid encoding.
pub open spec fn spec_parse(s: Seq<u8>) -> Option<(Tree, nat)>
    decreases s.len(),
{
    if s.len() == 0 {
        None
    } else if s[0] == CONS_BOX_MARKER {
        match spec_parse(s.drop_first()) {
            None => None,
            Some((t1, c1)) => {
                if c1 <= s.len() - 1 {
                    match spec_parse(s.drop_first().skip(c1 as int)) {
                        None => None,
                        Some((t2, c2)) => Some((pair_tree(t1, t2), (1 + c1 + c2) as nat)),
                    }
                } else {
                    None
                }
            },
        }
    } else {
        match spec_parse_atom(s[0], s.drop_first()) {
            None => None,
            Some((t, c)) => Some((t, (1 + c) as nat)),
        }
    }
}

/// A successful parse consumes at least one byte and no more than the
/// whole string.
pub proof fn lemma_parse_consumed(s: Seq<u8>)
    ensures
        spec_parse(s) matches Some(p) ==> 1 <= p.1 <= s.len(),
    decreases s.len(),
{
    if s.len() > 0 && s[0] == CONS_BOX_MARKER {
        lemma_parse_consumed(s.drop_first());
        match spec_parse(s.drop_first()) {
            None => {},
            Some((t1, c1)) => {
                if c1 <= s.len() - 1 {
                    lemma_parse_consumed(s.drop_first().skip(c1 as int));
                }
            },
        }
    }
}

/// The count of leading set bits in a header byte, and the byte with
/// those bits cleared.
fn leading_ones(b: u8) -> (r: (usize, u8))
    ensures
        r.0 == spec_ones_count(b),
        r.1 == spec_cleared(b),
{
    if b < 0x80 {
        (0, b)
    } else if b < 0xc0 {
        (1, b - 0x80)
    } else if b < 0xe0 {
        (2, b - 0xc0)
    } else if b < 0xf0 {
        (3, b - 0xe0)
    } else if b < 0xf8 {
        (4, b - 0xf0)
    } else if b < 0xfc {
        (5, b - 0xf8)
    } else if b < 0xfe {
        (6, b - 0xfc)
    } else if b < 0xff {
        (7, b - 0xfe)
    } else {
        (8, 0)
    }
}

/// A big-endian fold of a byte string into an unsigned value.
fn be_u64(bytes: &Bytes) -> (r: u64)
    ensures
        r == spec_be_u64(bytes@),
{
    let n = bytes.length();
    let mut acc: u64 = 0;
    let mut i: usize = 0;
    while i < n
        invariant
            n == bytes@.len(),
            i <= n,
            acc == spec_be_u64(bytes@.take(i as int)),
        decreases n - i,
    {
        acc = (acc << 8u64) | (bytes.at(i) as u64);
        i = i + 1;
        proof {
            assert(bytes@.take(i as int).drop_last() =~= bytes@.take(i - 1));
            assert(bytes@.take(i as int).last() == bytes@[i - 1]);
        }
    }
    proof {
        assert(bytes@.take(n as int) =~= bytes@);
    }
    acc
}

/// The default node-creation strategy: build an arena node from
/// decomposed content; it never fails.
pub struct SimpleCreateCLVMObject {}

impl SimpleCreateCLVMObject {
    /// Build a node from an atom's bytes or a pair of existing handles.
    pub fn invoke(&self, allocator: &mut ArenaSexpBuilder, v: SexpContent<usize>) -> (r: Result<
        usize,
        String,
    >)
        requires
            old(allocator).wf(),
            (v matches SexpContent::SexpTypeCons(a, b) ==> old(allocator).node_wf(a) && old(
                allocator,
            ).node_wf(b)),
        ensures
            final(allocator).wf(),
            final(allocator).extends(old(allocator)),
            r matches Ok(n) && final(allocator).node_wf(n),
            r matches Ok(n) ==> final(allocator).view_of(n) == (match v {
                SexpContent::SexpTypeAtom(bs) => Tree::Atom(bs@),
                SexpContent::SexpTypeCons(a, b) => pair_tree(
                    old(allocator).view_of(a),
                    old(allocator).view_of(b),
                ),
            }),
    {
        match v {
            SexpContent::SexpTypeAtom(bs) => Ok(allocator.push_atom(bs.as_slice())),
            SexpContent::SexpTypeCons(a, b) => Ok(allocator.push_pair(a, b)),
        }
    }
}

/// Read one atom from the stream, its header byte `b` already read:
/// gather the size bytes the header calls for, then the atom's bytes.
pub fn atom_from_stream(allocator: &mut ArenaSexpBuilder, f: &mut Stream, b: u8) -> (r: Result<
    usize,
    String,
>)
    requires
        old(allocator).wf(),
        old(f).wf(),
    ensures
        final(allocator).wf(),
        final(allocator).extends(old(allocator)),
        final(f).wf(),
        final(f).bytes() == old(f).bytes(),
        (spec_parse_atom(b, old(f).remaining()) matches Some(p) ==> (r matches Ok(n)
            && final(allocator).node_wf(n) && final(allocator).view_of(n) == p.0
            && final(f).pos() == old(f).pos() + p.1)),
        (spec_parse_atom(b, old(f).remaining()) is None ==> r is Err),
{
    let ghost rem = old(f).remaining();
    if b == 0x80 {
        return Ok(allocator.push_nil());
    } else if b <= MAX_SINGLE_BYTE {
        let mut v: Vec<u8> = Vec::new();
        v.push(b);
        proof {
            assert(v@ =~= seq![b]);
        }
        return Ok(allocator.push_atom(v.as_slice()));
    }
    let (bit_count, cleared) = leading_ones(b);
    let mut size_v: Vec<u8> = Vec::new();
    size_v.push(cleared);
    let mut size_blob = Bytes::new(Some(BytesFromType::Raw(size_v)));
    if bit_count > 1 {
        let bin = f.read(bit_count - 1);
        if bin.length() != bit_count - 1 {
            proof {
                allocator.lemma_extends_refl();
                assert(rem.len() < spec_ones_count(b) - 1);
            }
            return Err("bad encoding".to_string());
        }
        proof {
            assert(bin@ =~= rem.take(spec_ones_count(b) - 1));
        }
        size_blob = size_blob.concat(&bin);
    }
    proof {
        assert(size_blob@ =~= seq![spec_cleared(b)] + rem.take(spec_ones_count(b) - 1));
    }
    let size = be_u64(&size_blob);
    if size >= 0x400000000 || size > usize::MAX as u64 {
        proof {
            allocator.lemma_extends_refl();
        }
        return Err("blob too large".to_string());
    }
    let blob = f.read(size as usize);
    if blob.length() != size as usize {
        proof {
            allocator.lemma_extends_refl();
            assert(rem.skip(spec_ones_count(b) - 1).len() < size);
        }
        return Err("bad encoding".to_string());
    }
    proof {
        assert(blob@ =~= rem.skip(spec_ones_count(b) - 1).take(size as int));
    }
    Ok(allocator.push_atom(blob.data().as_slice()))
}

/// Read one tree from the stream: the marker byte opens a pair of two
/// parsed children, reassembled in order; any other byte opens an atom.
/// Fails exactly where the bytes are not a valid encoding.
pub fn sexp_from_stream(f: &mut Stream, allocator: &mut ArenaSexpBuilder) -> (r: Result<
    usize,
    String,
>)
    requires
        old(f).wf(),
        old(allocator).wf(),
    ensures
        final(allocator).wf(),
        final(allocator).extends(old(allocator)),
        final(f).wf(),
        final(f).bytes() == old(f).bytes(),
        (spec_parse(old(f).remaining()) matches Some(p) ==> (r matches Ok(n)
            && final(allocator).node_wf(n) && final(allocator).view_of(n) == p.0
            && final(f).pos() == old(f).pos() + p.1)),
        (spec_parse(old(f).remaining()) is None ==> r is Err),
    decreases old(f).bytes().len() - old(f).pos(),
{
    let ghost rem = old(f).remaining();
    let blob = f.read(1);
    if blob.length() == 0 {
        proof {
            allocator.lemma_extends_refl();
            assert(rem.len() == 0);
        }
        return Err("bad encoding".to_string());
    }
    let hd = blob.at(0);
    proof {
        assert(rem.len() > 0);
        assert(hd == rem[0]);
        assert(f.remaining() =~= rem.drop_first());
    }
    if hd == CONS_BOX_MARKER {
        let ghost rem1 = f.remaining();
        let left = match sexp_from_stream(f, allocator) {
            Ok(n) => n,
            Err(e) => {
                proof {
                    assert(spec_parse(rem) is None);
                }
                return Err(e);
            },
        };
        proof {
            lemma_parse_consumed(rem1);
            assert(f.remaining() =~= rem1.skip(spec_parse(rem1)->Some_0.1 as int));
        }
        let ghost bmid = *allocator;
        let right = match sexp_from_stream(f, allocator) {
            Ok(n) => n,
            Err(e) => {
                proof {
                    allocator.lemma_extends_trans(&bmid, &old(allocator));
                    assert(spec_parse(rem) is None);
                }
                return Err(e);
            },
        };
        proof {
            allocator.lemma_extends_node(&bmid, left);
        }
        let creator = SimpleCreateCLVMObject {};
        let ghost bpre = *allocator;
        let out = match creator.invoke(allocator, SexpContent::SexpTypeCons(left, right)) {
            Ok(n) => n,
            Err(e) => {
                return Err(e);
            },
        };
        proof {
            allocator.lemma_extends_trans(&bpre, &bmid);
            allocator.lemma_extends_trans(&bmid, &old(allocator));
        }
        Ok(out)
    } else {
        atom_from_stream(allocator, f, hd)
    }
}


/// Every atom of the tree fits both the representable size cap and the
/// address space.
pub open spec fn spec_parseable(t: Tree) -> bool
    decreases t,
{
    match t {
        Tree::Atom(bs) => bs.len() < 0x400000000 && bs.len() <= usize::MAX,
        Tree::Pair(l, r) => spec_parseable(*l) && spec_parseable(*r),
    }
}

/// Folding a short byte string big-endian, spelled out.
proof fn lemma_be_small(s: Seq<u8>)
    requires
        1 <= s.len() <= 5,
    ensures
        s.len() == 1 ==> spec_be_u64(s) == s[0] as u64,
        s.len() == 2 ==> spec_be_u64(s) == ((s[0] as u64) << 8u64) | (s[1] as u64),
        s.len() == 3 ==> spec_be_u64(s) == ((((s[0] as u64) << 8u64) | (s[1] as u64)) << 8u64)
            | (s[2] as u64),
        s.len() == 4 ==> spec_be_u64(s) == ((((((s[0] as u64) << 8u64) | (s[1] as u64)) << 8u64)
            | (s[2] as u64)) << 8u64) | (s[3] as u64),
        s.len() == 5 ==> spec_be_u64(s) == ((((((((s[0] as u64) << 8u64) | (s[1] as u64))
            << 8u64) | (s[2] as u64)) << 8u64) | (s[3] as u64)) << 8u64) | (s[4] as u64),
    decreases s.len(),
{
    assert(spec_be_u64(s) == (spec_be_u64(s.drop_last()) << 8u64) | (s.last() as u64));
    if s.len() == 1 {
        assert(s.drop_last() =~= Seq::<u8>::empty());
        assert(spec_be_u64(Seq::<u8>::empty()) == 0);
        assert((0u64 << 8u64) | (s[0] as u64) == s[0] as u64) by (bit_vector);
    } else {
        lemma_be_small(s.drop_last());
        assert(s.drop_last().len() == s.len() - 1);
        assert(forall|i: int| 0 <= i < s.len() - 1 ==> s.drop_last()[i] == s[i]);
        assert(s.last() == s[s.len() - 1]);
    }
}

/// A size header opens an atom: its first byte is neither the pair marker
/// nor a literal byte, its leading ones count the header's length, and
/// folding the cleared byte with the trailing size bytes gives back the
/// size.
proof fn lemma_size_header_round_trip(sz: u64)
    requires
        1 <= sz < 0x400000000,
    ensures
        ({
            let h = spec_size_header(sz);
            &&& 1 <= h.len() <= 5
            &&& h[0] != CONS_BOX_MARKER
            &&& h[0] > 0x80
            &&& spec_ones_count(h[0]) == h.len()
            &&& spec_be_u64(seq![spec_cleared(h[0])] + h.skip(1)) == sz
        }),
{
    let h = spec_size_header(sz);
    if sz < 0x40 {
        let b0 = (0x80u64 | sz) as u8;
        assert(h =~= seq![b0]);
        assert(0x80 < b0 && b0 < 0xc0) by (bit_vector)
            requires
                1 <= sz < 0x40 && b0 == (0x80u64 | sz) as u8,
        ;
        let cl = spec_cleared(b0);
        assert(cl == (b0 - 0x80) as u8);
        let blob = seq![cl] + h.skip(1);
        assert(blob =~= seq![cl]);
        lemma_be_small(blob);
        assert((((0x80u64 | sz) as u8) - 0x80) as u64 == sz) by (bit_vector)
            requires
                1 <= sz < 0x40,
        ;
    } else if sz < 0x2000 {
        let b0 = (0xC0u64 | (sz >> 8u64)) as u8;
        let b1 = (sz & 0xffu64) as u8;
        assert(h =~= seq![b0, b1]);
        assert(0xc0 <= b0 && b0 < 0xe0) by (bit_vector)
            requires
                0x40 <= sz < 0x2000 && b0 == (0xC0u64 | (sz >> 8u64)) as u8,
        ;
        let cl = spec_cleared(b0);
        assert(cl == (b0 - 0xc0) as u8);
        let blob = seq![cl] + h.skip(1);
        assert(blob =~= seq![cl, b1]);
        lemma_be_small(blob);
        assert(((cl as u64) << 8u64) | (b1 as u64) == sz) by (bit_vector)
            requires
                0x40 <= sz < 0x2000 && b0 == (0xC0u64 | (sz >> 8u64)) as u8 && b1 == (sz
                    & 0xffu64) as u8 && cl == (b0 - 0xc0) as u8,
        ;
    } else if sz < 0x100000 {
        let b0 = (0xE0u64 | (sz >> 16u64)) as u8;
        let b1 = ((sz >> 8u64) & 0xffu64) as u8;
        let b2 = (sz & 0xffu64) as u8;
        assert(h =~= seq![b0, b1, b2]);
        assert(0xe0 <= b0 && b0 < 0xf0) by (bit_vector)
            requires
                0x2000 <= sz < 0x100000 && b0 == (0xE0u64 | (sz >> 16u64)) as u8,
        ;
        let cl = spec_cleared(b0);
        assert(cl == (b0 - 0xe0) as u8);
        let blob = seq![cl] + h.skip(1);
        assert(blob =~= seq![cl, b1, b2]);
        lemma_be_small(blob);
        assert(((((cl as u64) << 8u64) | (b1 as u64)) << 8u64) | (b2 as u64) == sz) by (bit_vector)
            requires
                0x2000 <= sz < 0x100000 && b0 == (0xE0u64 | (sz >> 16u64)) as u8 && b1 == ((sz
                    >> 8u64) & 0xffu64) as u8 && b2 == (sz & 0xffu64) as u8 && cl == (b0
                    - 0xe0) as u8,
        ;
    } else if sz < 0x8000000 {
        let b0 = (0xF0u64 | (sz >> 24u64)) as u8;
        let b1 = ((sz >> 16u64) & 0xffu64) as u8;
        let b2 = ((sz >> 8u64) & 0xffu64) as u8;
        let b3 = (sz & 0xffu64) as u8;
        assert(h =~= seq![b0, b1, b2, b3]);
        assert(0xf0 <= b0 && b0 < 0xf8) by (bit_vector)
            requires
                0x100000 <= sz < 0x8000000 && b0 == (0xF0u64 | (sz >> 24u64)) as u8,
        ;
        let cl = spec_cleared(b0);
        assert(cl == (b0 - 0xf0) as u8);
        let blob = seq![cl] + h.skip(1);
        assert(blob =~= seq![cl, b1, b2, b3]);
        lemma_be_small(blob);
        assert(((((((cl as u64) << 8u64) | (b1 as u64)) << 8u64) | (b2 as u64)) << 8u64) | (
        b3 as u64) == sz) by (bit_vector)
            requires
                0x100000 <= sz < 0x8000000 && b0 == (0xF0u64 | (sz >> 24u64)) as u8 && b1 == ((
                sz >> 16u64) & 0xffu64) as u8 && b2 == ((sz >> 8u64) & 0xffu64) as u8 && b3 == (
                sz & 0xffu64) as u8 && cl == (b0 - 0xf0) as u8,
        ;
    } else {
        let b0 = (0xF8u64 | (sz >> 32u64)) as u8;
        let b1 = ((sz >> 24u64) & 0xffu64) as u8;
        let b2 = ((sz >> 16u64) & 0xffu64) as u8;
        let b3 = ((sz >> 8u64) & 0xffu64) as u8;
        let b4 = (sz & 0xffu64) as u8;
        assert(h =~= seq![b0, b1, b2, b3, b4]);
        assert(0xf8 <= b0 && b0 < 0xfc) by (bit_vector)
            requires
                0x8000000 <= sz < 0x400000000 && b0 == (0xF8u64 | (sz >> 32u64)) as u8,
        ;
        let cl = spec_cleared(b0);
        assert(cl == (b0 - 0xf8) as u8);
        let blob = seq![cl] + h.skip(1);
        assert(blob =~= seq![cl, b1, b2, b3, b4]);
        lemma_be_small(blob);
        assert(((((((((cl as u64) << 8u64) | (b1 as u64)) << 8u64) | (b2 as u64)) << 8u64) | (
        b3 as u64)) << 8u64) | (b4 as u64) == sz) by (bit_vector)
            requires
                0x8000000 <= sz < 0x400000000 && b0 == (0xF8u64 | (sz >> 32u64)) as u8 && b1
                    == ((sz >> 24u64) & 0xffu64) as u8 && b2 == ((sz >> 16u64) & 0xffu64) as u8
                    && b3 == ((sz >> 8u64) & 0xffu64) as u8 && b4 == (sz & 0xffu64) as u8 && cl
                    == (b0 - 0xf8) as u8,
        ;
    }
}

/// Round trip: parsing an encoded tree, whatever follows it, gives back
/// exactly that tree and consumes exactly its encoding.
#[verifier::rlimit(60)]
pub proof fn lemma_codec_round_trip(t: Tree, s: Seq<u8>)
    requires
        spec_parseable(t),
    ensures
        spec_parse(spec_encode(t) + s) == Some((t, spec_encode(t).len() as nat)),
    decreases t,
{
    let e = spec_encode(t);
    let s0 = e + s;
    match t {
        Tree::Atom(bs) => {
            if bs.len() == 0 {
                assert(s0 =~= seq![0x80u8] + s);
                assert(s0[0] == 0x80);
                assert(spec_parse_atom(0x80, s0.drop_first()) == Some((nil_tree(), 0nat)));
                assert(bs =~= Seq::<u8>::empty());
            } else if bs.len() == 1 && bs[0] <= 0x7f {
                let b = bs[0];
                assert(s0 =~= seq![b] + s);
                assert(s0[0] == b);
                if b == 0x80 {
                    assert(false);
                }
                assert(spec_parse_atom(b, s0.drop_first()) == Some((Tree::Atom(seq![b]), 0nat)));
                assert(bs =~= seq![b]);
            } else {
                let sz = bs.len() as u64;
                let h = spec_size_header(sz);
                lemma_size_header_round_trip(sz);
                assert(s0 =~= h + (bs + s));
                assert(s0[0] == h[0]);
                let b0 = h[0];
                let cnt = spec_ones_count(b0);
                assert(cnt == h.len());
                let after = s0.drop_first();
                assert(after =~= h.skip(1) + (bs + s));
                assert(after.len() >= cnt - 1);
                assert(after.take(cnt - 1) =~= h.skip(1));
                assert(seq![spec_cleared(b0)] + after.take(cnt - 1) =~= seq![spec_cleared(b0)]
                    + h.skip(1));
                assert(spec_be_u64(seq![spec_cleared(b0)] + after.take(cnt - 1)) == sz);
                assert(after.skip(cnt - 1) =~= bs + s);
                assert((bs + s).take(sz as int) =~= bs);
                assert(spec_parse_atom(b0, after) == Some((
                    Tree::Atom(bs),
                    ((cnt - 1) as nat + sz) as nat,
                )));
                assert(e.len() == cnt + bs.len());
            }
        },
        Tree::Pair(l, r) => {
            let el = spec_encode(*l);
            let er = spec_encode(*r);
            assert(e == seq![CONS_BOX_MARKER] + el + er);
            assert(s0 =~= seq![CONS_BOX_MARKER] + (el + (er + s)));
            assert(s0[0] == CONS_BOX_MARKER);
            assert(s0.drop_first() =~= el + (er + s));
            lemma_codec_round_trip(*l, er + s);
            let c1 = el.len() as nat;
            assert(spec_parse(s0.drop_first()) == Some((*l, c1)));
            lemma_parse_consumed(s0.drop_first());
            assert(c1 <= s0.len() - 1);
            assert(s0.drop_first().skip(c1 as int) =~= er + s);
            lemma_codec_round_trip(*r, s);
            assert(spec_parse(s0.drop_first().skip(c1 as int)) == Some((*r, er.len() as nat)));
            assert(t == pair_tree(*l, *r));
            assert(e.len() == 1 + el.len() + er.len());
        },
    }
}


} // verus!
