// Golden vectors: prototypes and outputs in the canonical binary tree
// encoding, entropy as literal bytes consumed big-endian four at a time.

use argument_generator::arena::ArenaSexpBuilder;
use argument_generator::bytes::Bytes;
use argument_generator::bytes::BytesFromType;
use argument_generator::entropy::ReplaySource;
use argument_generator::genome::CollectArgumentStructure;
use argument_generator::genome::DEFAULT_READ_MAX;
use argument_generator::serialize::Stream;
use argument_generator::serialize::sexp_from_stream;
use argument_generator::serialize::sexp_to_stream;

fn from_hex(s: &str) -> Vec<u8> {
    Bytes::new(Some(BytesFromType::Hex(s.to_string()))).raw()
}

fn produce_fuzz_args(prototype_hex: &str, input: &[u8]) -> Vec<u8> {
    let prototype_bytes = from_hex(prototype_hex);
    let mut allocator = ArenaSexpBuilder::new();
    let mut proto_stream = Stream::new(prototype_bytes);
    let prototype_node =
        sexp_from_stream(&mut proto_stream, &mut allocator).expect("bad conversion from bytes");
    let mut rng = ReplaySource::new(input.to_vec());
    let cas = CollectArgumentStructure::decode(&mut rng, DEFAULT_READ_MAX);
    let res = cas.to_sexp(&mut allocator, prototype_node).expect("should work");
    let mut out_stream = Stream::new(Vec::new());
    sexp_to_stream(&allocator, res, &mut out_stream).expect("should convert to bytes");
    out_stream.get_value().raw()
}

#[test]
fn interesting_argument_generation_inputs() {
    let interesting_strings: [(&str, &[u8], &str); 10] = [
        // Empty, produces nil
        ("41", &[], "80"),
        ("41", &[0x01, 0x85, 0x00, 0x14], "61"),
        ("ffff41ff42ff43804480", &[], "ffff80ff80ff808080"),
        ("ffff41ff42ff4380ff4480", &[0x01, 0x85, 0x00, 0x014], "ffff61ff61ff6180ff6180"),
        (
            "ffff41ff42ff4380ff4480",
            &[0x01, 0x85, 0x00, 0x14, 0x01, 0xc5, 0x00, 0x24],
            "ffff71ff61ff7180ff6180",
        ),
        ("41", &[0x00, 0x0a, 0x00, 0x0a, 0x00, 0x18], "ff8080"),
        (
            "41",
            &[0x01, 0x85, 0x00, 0x07, 0x00, 0x03, 0x00, 0x10, 0x00, 0x30, 0x00, 0x7c],
            "ff61ff6180",
        ),
        // Random string, one argument
        (
            "41",
            &[
                0x1a, 0x55, 0xdf, 0x26, 0xe3, 0xe6, 0x40, 0x1e, 0x69, 0x1c, 0xe0, 0x07, 0xbc,
                0xfd, 0xe2, 0xf8,
            ],
            "ffffff8195ff8080ff8080ffffff8195ff8080ff8080ffffff8195ff8080ff8080ffffff8195ff8080ff8080ffffff8195ff8080ff808080",
        ),
        (
            "ffff41ff42ff4380ff4480",
            &[
                0x0a, 0xa2, 0x9e, 0x48, 0xf5, 0x39, 0x75, 0x48, 0x10, 0xf2, 0x01, 0x9b, 0x0a,
                0x5b, 0x09, 0x02, 0xf5, 0xcd, 0xec, 0xc0,
            ],
            "ffff82734eff80ff8080ff82734e80",
        ),
        (
            "ffff41ff42ff4380ff4480",
            &[
                0x4c, 0xc7, 0x5e, 0xe5, 0x46, 0x8d, 0x36, 0xbd, 0xeb, 0x93, 0x10, 0x99, 0x94,
                0x85, 0x5a, 0x00, 0x37, 0xa4, 0xb9, 0xd3,
            ],
            "ffff80ff84a321afb9ff8080ff84a321afb980",
        ),
    ];
    for (args, input, wanted) in interesting_strings.iter() {
        let result_bytes = produce_fuzz_args(args, input);
        let wanted_bytes = from_hex(wanted);
        assert_eq!(result_bytes, wanted_bytes);
    }
}

#[test]
fn shape_preservation_keeps_nil_leaves() {
    // A prototype pair with a nil leaf and a placeholder leaf: the nil
    // leaf is never replaced, and with empty entropy the placeholder
    // becomes nil too, so the pair shape is kept exactly.
    assert_eq!(produce_fuzz_args("ff8041", &[]), from_hex("ff8080"));
    // With entropy, only the placeholder changes; the branching and the
    // nil leaf stay.
    assert_eq!(produce_fuzz_args("ff8041", &[0x01, 0x85, 0x00, 0x14]), from_hex("ff8061"));
}

#[test]
fn synthesis_is_deterministic_across_calls() {
    let proto = "ffff41ff42ff4380ff4480";
    let entropy: &[u8] = &[
        0x0a, 0xa2, 0x9e, 0x48, 0xf5, 0x39, 0x75, 0x48, 0x10, 0xf2, 0x01, 0x9b, 0x0a, 0x5b,
        0x09, 0x02, 0xf5, 0xcd, 0xec, 0xc0,
    ];
    let first = produce_fuzz_args(proto, entropy);
    let second = produce_fuzz_args(proto, entropy);
    assert_eq!(first, second);
}
