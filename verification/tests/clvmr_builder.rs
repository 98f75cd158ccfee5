// The synthesizer against the real host representation: a builder over
// the clvmr allocator, with prototypes and outputs carried through
// clvmr's own serializer.

use argument_generator::builder::SexpBuilder;
use argument_generator::builder::SexpContent;
use argument_generator::tree::Tree;
use argument_generator::bytes::Bytes;
use argument_generator::bytes::BytesFromType;
use argument_generator::entropy::ReplaySource;
use argument_generator::genome::CollectArgumentStructure;
use argument_generator::genome::DEFAULT_READ_MAX;
use clvmr::allocator::Allocator;
use clvmr::allocator::NodePtr;
use clvmr::allocator::SExp;
use clvmr::node::Node;
use clvmr::reduction::EvalErr;
use clvmr::serialize::node_from_bytes;
use clvmr::serialize::node_to_bytes;

fn from_hex(s: &str) -> Vec<u8> {
    Bytes::new(Some(BytesFromType::Hex(s.to_string()))).raw()
}

struct AllocatorSexpBuilder<'a> {
    allocator: &'a mut Allocator,
}

impl<'a> SexpBuilder<NodePtr, EvalErr> for AllocatorSexpBuilder<'a> {
    // Ghost members of the capability: they shape verification of the
    // engine and are never called at run time.
    fn wf(&self) -> bool {
        panic!()
    }

    fn node_wf(&self, _n: NodePtr) -> bool {
        panic!()
    }

    fn view_of(&self, _n: NodePtr) -> Tree {
        panic!()
    }

    fn extends(&self, _prev: &Self) -> bool {
        panic!()
    }

    fn lemma_extends_refl(&self) {
    }

    fn lemma_extends_trans(&self, _mid: &Self, _first: &Self) {
    }

    fn lemma_extends_node(&self, _prev: &Self, _n: NodePtr) {
    }

    fn destructure(&mut self, n: NodePtr) -> Result<SexpContent<NodePtr>, EvalErr> {
        match self.allocator.sexp(n) {
            SExp::Atom(b) => Ok(SexpContent::SexpTypeAtom(self.allocator.buf(&b).to_vec())),
            SExp::Pair(f, r) => Ok(SexpContent::SexpTypeCons(f, r)),
        }
    }

    fn make_cons(&mut self, some: NodePtr, other: NodePtr) -> Result<NodePtr, EvalErr> {
        self.allocator.new_pair(some, other)
    }

    fn make_nil(&mut self) -> NodePtr {
        self.allocator.null()
    }

    fn make_atom(&mut self, bytes: &[u8]) -> Result<NodePtr, EvalErr> {
        self.allocator.new_atom(bytes)
    }
}

#[test]
fn golden_vectors_through_clvmr_allocator() {
    let vectors: [(&str, &[u8], &str); 3] = [
        ("41", &[0x01, 0x85, 0x00, 0x14], "61"),
        ("41", &[0x00, 0x0a, 0x00, 0x0a, 0x00, 0x18], "ff8080"),
        (
            "ffff41ff42ff4380ff4480",
            &[
                0x0a, 0xa2, 0x9e, 0x48, 0xf5, 0x39, 0x75, 0x48, 0x10, 0xf2, 0x01, 0x9b, 0x0a,
                0x5b, 0x09, 0x02, 0xf5, 0xcd, 0xec, 0xc0,
            ],
            "ffff82734eff80ff8080ff82734e80",
        ),
    ];
    for (args, input, wanted) in vectors.iter() {
        let mut allocator = Allocator::new();
        let prototype_node = node_from_bytes(&mut allocator, &from_hex(args)).unwrap();
        let mut rng = ReplaySource::new(input.to_vec());
        let cas = CollectArgumentStructure::decode(&mut rng, DEFAULT_READ_MAX);
        let mut builder = AllocatorSexpBuilder { allocator: &mut allocator };
        let res = cas.to_sexp(&mut builder, prototype_node).expect("should work");
        let result_node = Node::new(&allocator, res);
        let result_bytes = node_to_bytes(&result_node).expect("should convert to bytes");
        assert_eq!(result_bytes, from_hex(wanted));
    }
}
