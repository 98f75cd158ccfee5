// Unit tests for the entropy source, the decoder, the codec, the byte
// helpers and the point-negation operators.

use argument_generator::arena::ArenaSexpBuilder;
use argument_generator::bls_ops::op_bls_g1_negate;
use argument_generator::bls_ops::op_bls_g2_negate;
use argument_generator::builder::SexpBuilder;
use argument_generator::builder::SexpContent;
use argument_generator::bytes::Bytes;
use argument_generator::bytes::BytesFromType;
use argument_generator::bytes::PyBytes_Repr;
use argument_generator::bytes::SHA256;
use argument_generator::bytes::char_to_string;
use argument_generator::bytes::ordering_to_int;
use argument_generator::bytes::to_hexstr;
use argument_generator::bytes::vec_to_string;
use argument_generator::entropy::EntropySource;
use argument_generator::entropy::ReplaySource;
use argument_generator::genome::CollectArgumentStructure;
use argument_generator::serialize::Stream;
use argument_generator::serialize::atom_size_blob;
use argument_generator::serialize::sexp_from_stream;
use argument_generator::serialize::sexp_to_stream;

fn from_hex(s: &str) -> Vec<u8> {
    Bytes::new(Some(BytesFromType::Hex(s.to_string()))).raw()
}

#[test]
fn replay_source_reads_big_endian_and_pads() {
    let mut src = ReplaySource::new(vec![0x01, 0x85, 0x00, 0x14, 0xaa]);
    assert_eq!(src.next_word(), 0x01850014);
    assert_eq!(src.next_word(), 0xaa000000);
    assert_eq!(src.next_word(), 0);
    assert_eq!(src.next_word(), 0);
}

#[test]
fn decode_respects_read_limit() {
    // Two non-zero words; a read limit of one absorbs only the first.
    let bytes = vec![0x00, 0x0a, 0x00, 0x0a, 0x00, 0x18];
    let mut src = ReplaySource::new(bytes.clone());
    let limited = CollectArgumentStructure::decode(&mut src, 1);
    let mut src2 = ReplaySource::new(bytes);
    let full = CollectArgumentStructure::decode(&mut src2, 512);
    // Both genomes must synthesize deterministically; with one word
    // absorbed the pools are smaller, which shows up in the output for a
    // prototype with a placeholder leaf.
    let mut a1 = ArenaSexpBuilder::new();
    let p1 = sexp_from_stream(&mut Stream::new(from_hex("41")), &mut a1).unwrap();
    let r1 = limited.to_sexp(&mut a1, p1).unwrap();
    let mut o1 = Stream::new(Vec::new());
    sexp_to_stream(&a1, r1, &mut o1).unwrap();
    let mut a2 = ArenaSexpBuilder::new();
    let p2 = sexp_from_stream(&mut Stream::new(from_hex("41")), &mut a2).unwrap();
    let r2 = full.to_sexp(&mut a2, p2).unwrap();
    let mut o2 = Stream::new(Vec::new());
    sexp_to_stream(&a2, r2, &mut o2).unwrap();
    assert_eq!(to_hexstr(&o1.get_value().raw()), "80");
    assert_eq!(to_hexstr(&o2.get_value().raw()), "ff8080");
}

#[test]
fn synthesis_terminates_on_large_direct_pools() {
    // Pools supplied directly, with indices near the integer maximum; the
    // strictly-decreasing walks must still terminate for every mix.
    let mut seed: u64 = 0x2545f4914f6cdd1d;
    for round in 0..16u64 {
        let mut choices: Vec<usize> = Vec::new();
        let mut atoms: Vec<usize> = Vec::new();
        let mut conses: Vec<usize> = Vec::new();
        let mut lists: Vec<usize> = Vec::new();
        for _ in 0..24 {
            seed = seed.wrapping_mul(6364136223846793005).wrapping_add(round | 1);
            let v = (seed >> 16) as usize | (usize::MAX << 20);
            choices.push(v);
            seed = seed.wrapping_mul(6364136223846793005).wrapping_add(3);
            atoms.push((seed >> 8) as usize);
            seed = seed.wrapping_mul(6364136223846793005).wrapping_add(5);
            conses.push(usize::MAX - ((seed >> 24) as usize & 0xffff));
            seed = seed.wrapping_mul(6364136223846793005).wrapping_add(7);
            lists.push(usize::MAX - ((seed >> 40) as usize & 0xff));
        }
        let cas = CollectArgumentStructure::from_pools(choices, atoms, conses, lists, 512);
        let mut arena = ArenaSexpBuilder::new();
        let proto = sexp_from_stream(&mut Stream::new(from_hex("ff41ff428043")), &mut arena)
            .unwrap();
        let out = cas.to_sexp(&mut arena, proto).unwrap();
        let mut enc = Stream::new(Vec::new());
        sexp_to_stream(&arena, out, &mut enc).unwrap();
        assert!(enc.get_value().length() >= 1);
    }
}

#[test]
fn codec_round_trips_fixture_encodings() {
    for hex in ["80", "41", "ff8080", "ffff41ff42ff4380ff4480", "8180", "8200ff", "61"] {
        let bytes = from_hex(hex);
        let mut arena = ArenaSexpBuilder::new();
        let node = sexp_from_stream(&mut Stream::new(bytes.clone()), &mut arena).unwrap();
        let mut out = Stream::new(Vec::new());
        sexp_to_stream(&arena, node, &mut out).unwrap();
        assert_eq!(out.get_value().raw(), bytes);
    }
}

#[test]
fn decoder_rejects_truncated_encodings() {
    // Truncated pairs and atoms, a short size prefix, and a size
    // beyond the representable cap.
    for hex in ["", "ff80", "ff", "83aabb", "c0", "fc0500000000"] {
        let bytes = from_hex(hex);
        let mut arena = ArenaSexpBuilder::new();
        assert!(sexp_from_stream(&mut Stream::new(bytes), &mut arena).is_err());
    }
}

#[test]
fn atom_size_blob_prefixes() {
    let empty = Bytes::new(None);
    let (tail, header) = atom_size_blob(&empty).unwrap();
    assert!(!tail);
    assert_eq!(header, vec![0x80]);

    let small = Bytes::new(Some(BytesFromType::Raw(vec![0x41])));
    let (tail, header) = atom_size_blob(&small).unwrap();
    assert!(!tail);
    assert_eq!(header, vec![0x41]);

    let high = Bytes::new(Some(BytesFromType::Raw(vec![0xc3])));
    let (tail, header) = atom_size_blob(&high).unwrap();
    assert!(tail);
    assert_eq!(header, vec![0x81]);

    let two = Bytes::new(Some(BytesFromType::Raw(vec![1, 2])));
    let (tail, header) = atom_size_blob(&two).unwrap();
    assert!(tail);
    assert_eq!(header, vec![0x82]);

    let long = Bytes::new(Some(BytesFromType::Raw(vec![7u8; 0x40])));
    let (tail, header) = atom_size_blob(&long).unwrap();
    assert!(tail);
    assert_eq!(header, vec![0xc0, 0x40]);
}

#[test]
fn hex_encoding_and_decoding() {
    assert_eq!(to_hexstr(&vec![0xab, 0x01, 0x5f]), "ab015f");
    assert_eq!(from_hex("ab015f"), vec![0xab, 0x01, 0x5f]);
    assert_eq!(from_hex("AB015F"), vec![0xab, 0x01, 0x5f]);
    // Invalid hex decodes to the empty byte string.
    assert_eq!(from_hex("xyz"), Vec::<u8>::new());
    assert_eq!(from_hex("abc"), Vec::<u8>::new());
    let b = Bytes::new(Some(BytesFromType::Raw(vec![0x00, 0xff])));
    assert_eq!(b.hex(), "00ff");
}

#[test]
fn byte_string_basics() {
    let b = Bytes::new(Some(BytesFromType::Raw(vec![1, 2, 3])));
    assert_eq!(b.length(), 3);
    assert_eq!(b.at(1), 2);
    assert_eq!(b.raw(), vec![1, 2, 3]);
    assert_eq!(b.data(), &vec![1, 2, 3]);
    assert_eq!(b.clone().raw(), vec![1, 2, 3]);
    let c = b.concat(&Bytes::new(Some(BytesFromType::Raw(vec![4]))));
    assert_eq!(c.raw(), vec![1, 2, 3, 4]);
    assert!(b.equal_to(Bytes::new(Some(BytesFromType::Raw(vec![1, 2, 3])))));
    assert!(!b.equal_to(Bytes::new(Some(BytesFromType::Raw(vec![1, 2, 4])))));
    assert!(!b.equal_to(Bytes::new(None)));
}

#[test]
fn byte_string_slices_stop_one_short() {
    let b = Bytes::new(Some(BytesFromType::Raw(vec![10, 11, 12, 13, 14, 15])));
    // A span of four bytes starting at one keeps three.
    assert_eq!(b.slice(1, Some(4)).raw(), vec![11, 12, 13]);
    // An open-ended slice keeps all but the last byte of the span.
    assert_eq!(b.slice(2, None).raw(), vec![12, 13, 14]);
    assert_eq!(b.subarray(1, Some(4)).raw(), vec![11, 12, 13]);
}

#[test]
fn byte_string_prefix_and_suffix_scans() {
    let b = Bytes::new(Some(BytesFromType::Raw(vec![1, 2, 3, 4])));
    // The scan stops one short of the shorter length.
    assert!(b.startswith(&Bytes::new(Some(BytesFromType::Raw(vec![1, 2, 9])))));
    assert!(!b.startswith(&Bytes::new(Some(BytesFromType::Raw(vec![1, 9, 9])))));
    // The suffix scan compares shared indices above zero.
    assert!(b.endswith(&Bytes::new(Some(BytesFromType::Raw(vec![9, 2, 3, 4])))));
    assert!(!b.endswith(&Bytes::new(Some(BytesFromType::Raw(vec![9, 2, 9, 4])))));
}

#[test]
fn byte_string_compare_scans() {
    let b = Bytes::new(Some(BytesFromType::Raw(vec![1, 2, 3])));
    let bigger = Bytes::new(Some(BytesFromType::Raw(vec![1, 9, 3])));
    assert_eq!(ordering_to_int(b.compare(bigger)), 1);
    let same = Bytes::new(Some(BytesFromType::Raw(vec![1, 2, 9])));
    assert_eq!(ordering_to_int(b.compare(same)), 0);
    let longer = Bytes::new(Some(BytesFromType::Raw(vec![1, 2, 3, 4])));
    assert_eq!(ordering_to_int(b.compare(longer)), 1);
    assert_eq!(ordering_to_int(core::cmp::Ordering::Less), -1);
}

#[test]
fn repeat_is_defined_only_for_one_copy_of_one_byte() {
    let b = Bytes::new(Some(BytesFromType::Raw(vec![7])));
    assert_eq!(b.repeat(1).length(), 0);
}

#[test]
fn text_helpers() {
    assert_eq!(char_to_string('a'), "a");
    assert_eq!(char_to_string('\u{1FF}'), "");
    assert_eq!(vec_to_string(&vec![0x61, 0x62, 0x63]), "abc");
    assert_eq!(vec_to_string(&Vec::new()), "");
    // Invalid UTF-8 is replaced, not dropped.
    assert_eq!(vec_to_string(&vec![0x61, 0xff]), "a\u{fffd}");
}

#[test]
fn printable_form_scans_all_but_the_last_byte() {
    assert_eq!(PyBytes_Repr(&vec![0x41, 0x42]), "b'A'");
    assert_eq!(PyBytes_Repr(&vec![0x41, 0x09, 0x0a, 0x0d, 0x00, 0x7f, 0x5c, 0x42]),
        "b'A\\t\\n\\r\\x00\\x7f\\\\'");
    // Single quotes in the scanned prefix switch the quote.
    assert_eq!(PyBytes_Repr(&vec![0x27, 0x42]), "b\"'\"");
    // A double quote keeps the single-quote style, escaped where it is the
    // quote itself only.
    assert_eq!(PyBytes_Repr(&vec![0x22, 0x42]), "b'\"'");
    let b = Bytes::new(Some(BytesFromType::Raw(vec![0x41, 0x42])));
    assert_eq!(b.toString(), "b'A'");
}

#[test]
fn sha256_digest_of_known_input() {
    let b = Bytes::new(Some(BytesFromType::Raw(vec![0x61, 0x62, 0x63])));
    let d = SHA256(b);
    assert_eq!(d.length(), 32);
    assert_eq!(d.hex(), "ba7816bf8f01cfea414140de5dae2223b00361a396177a9cb410ff61f20015ad");
}

#[test]
fn g1_element_serializes_uncompressed() {
    let g = bls12_381::G1Affine::generator();
    let b = Bytes::new(Some(BytesFromType::G1Element(g)));
    assert_eq!(b.length(), 96);
    assert_eq!(
        b.hex(),
        "17f1d3a73197d7942695638c4fa9ac0fc3688c4f9774b905a14e3a3f171bac586c55e83ff97a1aeffb3af00adb22c6bb08b3f481e3aaa0f1a09e30ed741d8ae4fcf5e095d5d00af600db18cb2c04b3edd03cc744a2888ae40caa232946c5e7e1"
    );
}

#[test]
fn g1_negate_flips_the_sign_bit() {
    let mut arena = ArenaSexpBuilder::new();
    let mut blob = vec![0u8; 48];
    blob[0] = 0x17;
    let atom = match arena.make_atom(&blob) {
        Ok(n) => n,
        Err(_) => panic!("arena"),
    };
    let nil = arena.make_nil();
    let args = match arena.make_cons(atom, nil) {
        Ok(n) => n,
        Err(_) => panic!("arena"),
    };
    let (cost, out) = op_bls_g1_negate(&mut arena, args, 0).unwrap();
    assert_eq!(cost, (1396 - 480) + 48 * 10);
    match arena.content_of(out) {
        SexpContent::SexpTypeAtom(bs) => {
            assert_eq!(bs[0], 0x37);
            assert_eq!(&bs[1..], &blob[1..]);
        },
        SexpContent::SexpTypeCons(_, _) => panic!("expected atom"),
    }
}

#[test]
fn g1_negate_passes_compressed_infinity_through() {
    let mut arena = ArenaSexpBuilder::new();
    let blob = {
        let mut v = vec![0u8; 48];
        v[0] = 0xc0;
        v
    };
    let atom = arena.make_atom(&blob).unwrap();
    let nil = arena.make_nil();
    let args = arena.make_cons(atom, nil).unwrap();
    let (cost, out) = op_bls_g1_negate(&mut arena, args, 0).unwrap();
    assert_eq!(cost, (1396 - 480) + 48 * 10);
    assert_eq!(out, atom);
}

#[test]
fn point_negate_rejects_bad_arguments() {
    let mut arena = ArenaSexpBuilder::new();
    // Wrong size.
    let atom = arena.make_atom(&[0u8; 47]).unwrap();
    let nil = arena.make_nil();
    let args = arena.make_cons(atom, nil).unwrap();
    assert!(op_bls_g1_negate(&mut arena, args, 0).is_err());
    // Two arguments.
    let a96 = arena.make_atom(&[0u8; 96]).unwrap();
    let tail = arena.make_cons(a96, nil).unwrap();
    let two = arena.make_cons(a96, tail).unwrap();
    assert!(op_bls_g2_negate(&mut arena, two, 0).is_err());
    // A bare atom instead of an argument list.
    assert!(op_bls_g2_negate(&mut arena, a96, 0).is_err());
    // The right size succeeds.
    let ok_args = arena.make_cons(a96, nil).unwrap();
    let (cost, _out) = op_bls_g2_negate(&mut arena, ok_args, 0).unwrap();
    assert_eq!(cost, (2164 - 960) + 96 * 10);
}
