//! An immutable byte-string type and its helpers: hex conversion, lossy
//! text decoding, a Python-style printable form, and hashing.

use vstd::prelude::*;
use sha2::Digest;

verus! {

/// The lowercase hex digit for a nibble, as a byte.
pub open spec fn hex_digit_byte(v: u8) -> u8 {
    if v < 10 {
        (v + 48) as u8
    } else {
        (87 + v) as u8
    }
}

/// ASCII bytes read as characters.
pub open spec fn chars_of(bs: Seq<u8>) -> Seq<char> {
    Seq::new(bs.len(), |i: int| bs[i] as char)
}

/// The lowercase hex encoding of a byte string, two digits per byte, high
/// nibble first.
pub open spec fn spec_hex_encode(s: Seq<u8>) -> Seq<char> {
    Seq::new(
        s.len() * 2,
        |i: int|
            if i % 2 == 0 {
                hex_digit_byte(s[i / 2] >> 4u8) as char
            } else {
                hex_digit_byte(s[i / 2] & 0xfu8) as char
            },
    )
}

/// A hex digit in either case.
pub open spec fn is_hex_digit(c: char) -> bool {
    ||| 48 <= c as u32 <= 57
    ||| 97 <= c as u32 <= 102
    ||| 65 <= c as u32 <= 70
}

/// The value of a hex digit.
pub open spec fn hex_val(c: char) -> u8 {
    if 48 <= c as u32 <= 57 {
        (c as u32 - 48) as u8
    } else if 97 <= c as u32 <= 102 {
        (c as u32 - 87) as u8
    } else {
        (c as u32 - 55) as u8
    }
}

/// A string decodes as hex exactly when its length is even and every
/// character is a hex digit.
pub open spec fn spec_hex_decode_ok(s: Seq<char>) -> bool {
    &&& s.len() % 2 == 0
    &&& forall|i: int| 0 <= i < s.len() ==> is_hex_digit(#[trigger] s[i])
}

/// The bytes a hex string decodes to, one byte per digit pair, high
/// nibble first.
pub open spec fn spec_hex_decode(s: Seq<char>) -> Seq<u8> {
    Seq::new(s.len() / 2, |i: int| (hex_val(s[2 * i]) * 16 + hex_val(s[2 * i + 1])) as u8)
}

/// Relies on hex::encode: two lowercase digits per byte, high nibble
/// first, in input order.
#[verifier::external_body]
fn hex_encode(data: &Vec<u8>) -> (r: String)
    ensures
        r@ == spec_hex_encode(data@),
{
    hex::encode(data)
}

/// Relies on hex::decode: it accepts exactly the even-length strings of
/// hex digits in either case, pairing digits high nibble first, and
/// rejects anything else.
#[verifier::external_body]
fn hex_decode(data: &str) -> (r: Option<Vec<u8>>)
    ensures
        r is Some <==> spec_hex_decode_ok(data@),
        r matches Some(v) ==> v@ == spec_hex_decode(data@),
{
    hex::decode(data).ok()
}

/// Relies on String::from_utf8: a vector of bytes below 0x80 is valid
/// UTF-8 and decodes to one character per byte, each equal to its byte.
#[verifier::external_body]
fn ascii_string(v: Vec<u8>) -> (r: String)
    requires
        forall|i: int| 0 <= i < v@.len() ==> v@[i] < 0x80,
    ensures
        r@ == chars_of(v@),
{
    match String::from_utf8(v) {
        Ok(s) => s,
        Err(_) => String::new(),
    }
}

/// What String::from_utf8_lossy yields on a byte string; a function of
/// the bytes alone.
pub uninterp spec fn lossy_decoded(s: Seq<u8>) -> Seq<char>;

/// Relies on String::from_utf8_lossy: the result depends on the bytes
/// alone, and valid UTF-8 — in particular pure ASCII — passes through
/// unchanged, one character per byte.
#[verifier::external_body]
fn utf8_lossy(r: &Vec<u8>) -> (s: String)
    ensures
        s@ == lossy_decoded(r@),
        (forall|i: int| 0 <= i < r@.len() ==> r@[i] < 0x80) ==> s@ == chars_of(r@),
{
    String::from_utf8_lossy(r).into_owned()
}

/// What a SHA-256 digest of a byte string is; a function of the bytes
/// alone.
pub uninterp spec fn sha256_of(s: Seq<u8>) -> Seq<u8>;

/// Relies on sha2::Sha256::digest: the 32-byte digest depends on the
/// input bytes alone.
#[verifier::external_body]
fn sha256_digest(value: &Vec<u8>) -> (r: Vec<u8>)
    ensures
        r@ == sha256_of(value@),
        r@.len() == 32,
{
    let hashed = sha2::Sha256::digest(&value[..]);
    hashed.to_vec()
}

#[verifier::external_type_specification]
#[verifier::external_body]
pub struct ExG1Affine(bls12_381::G1Affine);

/// Relies on bls12_381::G1Affine::to_uncompressed: the serialized form of
/// a curve point is exactly 96 bytes.
#[verifier::external_body]
fn g1_uncompressed(g: &bls12_381::G1Affine) -> (r: Vec<u8>)
    ensures
        r@.len() == 96,
{
    g.to_uncompressed().to_vec()
}

/// Hex-encode a byte string, lowercase.
pub fn to_hexstr(r: &Vec<u8>) -> (s: String)
    ensures
        s@ == spec_hex_encode(r@),
{
    hex_encode(r)
}

/// The one-character string of a character's low byte, when that byte is
/// ASCII; the empty string otherwise.
pub open spec fn spec_char_to_string(ch: char) -> Seq<char> {
    if (ch as u8) < 0x80 {
        seq![(ch as u8) as char]
    } else {
        Seq::empty()
    }
}

pub fn char_to_string(ch: char) -> (r: String)
    ensures
        r@ == spec_char_to_string(ch),
{
    let b = ch as u8;
    if b < 0x80 {
        let mut v: Vec<u8> = Vec::new();
        v.push(b);
        proof {
            assert(chars_of(v@) =~= seq![b as char]);
        }
        ascii_string(v)
    } else {
        let r = String::new();
        proof {
            assert(r@ =~= Seq::<char>::empty());
        }
        r
    }
}

/// Decode bytes as text, replacing invalid UTF-8 lossily.
pub fn vec_to_string(r: &Vec<u8>) -> (s: String)
    ensures
        s@ == lossy_decoded(r@),
        (forall|i: int| 0 <= i < r@.len() ==> r@[i] < 0x80) ==> s@ == chars_of(r@),
{
    utf8_lossy(r)
}

/// A comparison outcome as the conventional integer: -1, 0 or 1.
pub fn ordering_to_int(o: core::cmp::Ordering) -> (r: i32)
    ensures
        o == core::cmp::Ordering::Less ==> r == -1,
        o == core::cmp::Ordering::Equal ==> r == 0,
        o == core::cmp::Ordering::Greater ==> r == 1,
{
    match o {
        core::cmp::Ordering::Less => -1,
        core::cmp::Ordering::Equal => 0,
        core::cmp::Ordering::Greater => 1,
    }
}

/// The number of occurrences of `b` among the first `n` bytes of `s`.
pub open spec fn count_byte(s: Seq<u8>, b: u8, n: int) -> int
    decreases n,
{
    if n <= 0 {
        0
    } else {
        count_byte(s, b, n - 1) + if s[n - 1] == b {
            1int
        } else {
            0int
        }
    }
}

/// The quote character the printable form uses: a double quote when the
/// scanned prefix holds single quotes but no double quotes.
pub open spec fn spec_repr_quote(s: Seq<u8>) -> u8 {
    if count_byte(s, 39, s.len() - 1) > 0 && count_byte(s, 34, s.len() - 1) == 0 {
        34u8
    } else {
        39u8
    }
}

/// One byte of the printable form: escape the quote and backslash, name
/// tab, newline and carriage return, hex-escape other non-printables, and
/// keep the rest.
pub open spec fn spec_escape_byte(b: u8, quote: u8) -> Seq<u8> {
    if b == quote || b == 92 {
        seq![92u8, b]
    } else if b == 9 {
        seq![92u8, 116u8]
    } else if b == 10 {
        seq![92u8, 110u8]
    } else if b == 13 {
        seq![92u8, 114u8]
    } else if b < 32 || b >= 0x7f {
        seq![92u8, 120u8, hex_digit_byte(b >> 4u8), hex_digit_byte(b & 0xfu8)]
    } else {
        seq![b]
    }
}

/// The escaped form of the first `n` bytes of `s`.
pub open spec fn spec_escaped_prefix(s: Seq<u8>, quote: u8, n: int) -> Seq<u8>
    decreases n,
{
    if n <= 0 {
        Seq::empty()
    } else {
        spec_escaped_prefix(s, quote, n - 1) + spec_escape_byte(s[n - 1], quote)
    }
}

/// The whole printable form, as ASCII bytes: a `b` prefix, the quote, the
/// escaped bytes of the scanned prefix, and the closing quote.
pub open spec fn spec_pybytes_repr(s: Seq<u8>) -> Seq<u8> {
    seq![98u8, spec_repr_quote(s)] + spec_escaped_prefix(s, spec_repr_quote(s), s.len() - 1)
        + seq![spec_repr_quote(s)]
}

/// Every escaped byte is ASCII.
proof fn lemma_escape_ascii(s: Seq<u8>, quote: u8, n: int)
    requires
        quote == 34 || quote == 39,
    ensures
        forall|i: int|
            0 <= i < spec_escaped_prefix(s, quote, n).len() ==> #[trigger] spec_escaped_prefix(
                s,
                quote,
                n,
            )[i] < 0x80,
    decreases n,
{
    if n > 0 {
        lemma_escape_ascii(s, quote, n - 1);
        assert(forall|x: u8| x >> 4u8 < 16 && (x & 0xfu8) < 16) by (bit_vector);
        assert(forall|i: int|
            0 <= i < spec_escape_byte(s[n - 1], quote).len() ==> #[trigger] spec_escape_byte(
                s[n - 1],
                quote,
            )[i] < 0x80);
        assert forall|i: int| 0 <= i < spec_escaped_prefix(s, quote, n).len() implies #[trigger] spec_escaped_prefix(
            s,
            quote,
            n,
        )[i] < 0x80 by {
            let pre = spec_escaped_prefix(s, quote, n - 1);
            let eb = spec_escape_byte(s[n - 1], quote);
            assert(spec_escaped_prefix(s, quote, n) == pre + eb);
            if i < pre.len() {
                assert(spec_escaped_prefix(s, quote, n)[i] == pre[i]);
            } else {
                assert(spec_escaped_prefix(s, quote, n)[i] == eb[i - pre.len()]);
            }
        }
    }
}

/// Python's bytes.__repr__ style printable form of a byte string; the
/// last byte is not scanned.
#[allow(non_snake_case)]
pub fn PyBytes_Repr(r: &Vec<u8>) -> (s: String)
    requires
        r@.len() >= 1,
    ensures
        s@ == chars_of(spec_pybytes_repr(r@)),
{
    let n = r.len();
    let mut squotes: usize = 0;
    let mut dquotes: usize = 0;
    let mut i: usize = 0;
    while i < n - 1
        invariant
            n == r@.len(),
            1 <= n,
            i <= n - 1,
            squotes == count_byte(r@, 39, i as int),
            dquotes == count_byte(r@, 34, i as int),
            squotes <= i,
            dquotes <= i,
        decreases n - 1 - i,
    {
        let b = r[i];
        if b == 39 {
            squotes = squotes + 1;
        } else if b == 34 {
            dquotes = dquotes + 1;
        }
        i = i + 1;
    }
    let quote: u8 = if squotes > 0 && dquotes == 0 {
        34
    } else {
        39
    };
    proof {
        assert(quote == spec_repr_quote(r@));
    }
    let mut out: Vec<u8> = Vec::new();
    out.push(98);
    out.push(quote);
    let ghost prefix = seq![98u8, quote];
    proof {
        assert(out@ =~= prefix + spec_escaped_prefix(r@, quote, 0));
    }
    let mut i: usize = 0;
    while i < n - 1
        invariant
            n == r@.len(),
            1 <= n,
            i <= n - 1,
            quote == 34 || quote == 39,
            out@ == prefix + spec_escaped_prefix(r@, quote, i as int),
        decreases n - 1 - i,
    {
        let b = r[i];
        if b == quote || b == 92 {
            out.push(92);
            out.push(b);
        } else if b == 9 {
            out.push(92);
            out.push(116);
        } else if b == 10 {
            out.push(92);
            out.push(110);
        } else if b == 13 {
            out.push(92);
            out.push(114);
        } else if b < 32 || b >= 0x7f {
            out.push(92);
            out.push(120);
            let hi = b >> 4u8;
            let lo = b & 0xfu8;
            proof {
                assert(hi < 16 && lo < 16) by (bit_vector)
                    requires
                        hi == b >> 4u8 && lo == b & 0xfu8,
                ;
            }
            out.push(
                if hi < 10 {
                    hi + 48
                } else {
                    87 + hi
                },
            );
            out.push(
                if lo < 10 {
                    lo + 48
                } else {
                    87 + lo
                },
            );
        } else {
            out.push(b);
        }
        i = i + 1;
        proof {
            assert(out@ =~= prefix + spec_escaped_prefix(r@, quote, i as int));
        }
    }
    out.push(quote);
    proof {
        assert(out@ =~= spec_pybytes_repr(r@));
        lemma_escape_ascii(r@, quote, n - 1 as int);
        assert(forall|j: int| 0 <= j < out@.len() ==> out@[j] < 0x80);
    }
    ascii_string(out)
}

/// How a byte string may be supplied: a hex string, raw bytes, or a curve
/// point serialized uncompressed.
pub enum BytesFromType {
    Hex(String),
    Raw(Vec<u8>),
    G1Element(bls12_381::G1Affine),
}

/// An immutable byte string.
pub struct Bytes {
    _b: Vec<u8>,
}

impl View for Bytes {
    type V = Seq<u8>;

    closed spec fn view(&self) -> Seq<u8> {
        self._b@
    }
}

impl Bytes {
    /// Build a byte string: empty when nothing is supplied, the raw bytes,
    /// the hex decoding (empty on invalid hex), or the 96-byte
    /// uncompressed form of a curve point.
    pub fn new(value: Option<BytesFromType>) -> (r: Self)
        ensures
            value is None ==> r@ == Seq::<u8>::empty(),
            (value matches Some(BytesFromType::Raw(v)) ==> r@ == v@),
            (value matches Some(BytesFromType::Hex(h)) ==> r@ == (if spec_hex_decode_ok(h@) {
                spec_hex_decode(h@)
            } else {
                Seq::<u8>::empty()
            })),
            (value matches Some(BytesFromType::G1Element(_)) ==> r@.len() == 96),
    {
        match value {
            None => Bytes { _b: Vec::new() },
            Some(BytesFromType::Raw(v)) => Bytes { _b: v },
            Some(BytesFromType::Hex(hstr)) => match hex_decode(hstr.as_str()) {
                Some(d) => Bytes { _b: d },
                None => Bytes { _b: Vec::new() },
            },
            Some(BytesFromType::G1Element(g1)) => Bytes { _b: g1_uncompressed(&g1) },
        }
    }

    pub fn length(&self) -> (r: usize)
        ensures
            r == self@.len(),
    {
        self._b.len()
    }

    pub fn at(&self, i: usize) -> (r: u8)
        requires
            i < self@.len(),
        ensures
            r == self@[i as int],
    {
        self._b[i]
    }

    pub fn raw(&self) -> (r: Vec<u8>)
        ensures
            r@ == self@,
    {
        self._b.clone()
    }

    /// Repetition as bounded here never fills the buffer it reserves: it
    /// is defined only where exactly one byte is repeated once, and then
    /// yields the empty byte string.
    pub fn repeat(&self, n: usize) -> (r: Bytes)
        requires
            self@.len() * n == 1,
        ensures
            r@ == Seq::<u8>::empty(),
    {
        let ret: Vec<u8> = Vec::new();
        Bytes::new(Some(BytesFromType::Raw(ret)))
    }

    pub fn concat(&self, b: &Bytes) -> (r: Bytes)
        ensures
            r@ == self@ + b@,
    {
        let mut this_bin = self._b.clone();
        let mut that_bin = b.raw();
        let mut concat_bin: Vec<u8> = Vec::new();
        concat_bin.append(&mut this_bin);
        concat_bin.append(&mut that_bin);
        proof {
            assert(concat_bin@ =~= self@ + b@);
        }
        Bytes::new(Some(BytesFromType::Raw(concat_bin)))
    }

    /// How many bytes a slice keeps: the requested count where it fits
    /// strictly inside, else everything from `start` on.
    pub open spec fn spec_slice_take(len: nat, start: usize, length: Option<usize>) -> int {
        match length {
            Some(x) => if len > start + x {
                x as int
            } else {
                len - start
            },
            None => len - start,
        }
    }

    /// A sub-string of the bytes, one byte short of the chosen span.
    pub fn slice(&self, start: usize, length: Option<usize>) -> (r: Self)
        requires
            start <= self@.len(),
            (length matches Some(x) ==> start + x <= usize::MAX),
            start + Self::spec_slice_take(self@.len(), start, length) >= 1,
        ensures
            ({
                let take = Self::spec_slice_take(self@.len(), start, length);
                if take == 0 {
                    r@ == Seq::<u8>::empty()
                } else {
                    r@ == self@.subrange(start as int, start + take - 1)
                }
            }),
    {
        let len: usize = match length {
            Some(x) => {
                if self._b.len() > start + x {
                    x
                } else {
                    self._b.len() - start
                }
            },
            None => self._b.len() - start,
        };
        let mut ui8_clone: Vec<u8> = Vec::new();
        let mut i: usize = start;
        while i < start + len - 1
            invariant
                start <= self@.len(),
                len == Self::spec_slice_take(self@.len(), start, length),
                start + len >= 1,
                start + len <= self@.len(),
                start + len <= usize::MAX,
                start <= i,
                i <= start + len - 1 || i == start,
                ui8_clone@ == self@.subrange(start as int, i as int),
            decreases start + len - 1 - i,
        {
            ui8_clone.push(self._b[i]);
            i = i + 1;
            proof {
                assert(ui8_clone@ =~= self@.subrange(start as int, i as int));
            }
        }
        proof {
            if len == 0 {
                assert(ui8_clone@ =~= Seq::<u8>::empty());
            } else {
                assert(ui8_clone@ =~= self@.subrange(start as int, start + len - 1));
            }
        }
        Bytes::new(Some(BytesFromType::Raw(ui8_clone)))
    }

    pub fn subarray(&self, start: usize, length: Option<usize>) -> (r: Self)
        requires
            start <= self@.len(),
            (length matches Some(x) ==> start + x <= usize::MAX),
            start + Self::spec_slice_take(self@.len(), start, length) >= 1,
        ensures
            ({
                let take = Self::spec_slice_take(self@.len(), start, length);
                if take == 0 {
                    r@ == Seq::<u8>::empty()
                } else {
                    r@ == self@.subrange(start as int, start + take - 1)
                }
            }),
    {
        self.slice(start, length)
    }

    pub fn data(&self) -> (r: &Vec<u8>)
        ensures
            r@ == self@,
    {
        &self._b
    }

    pub fn clone(&self) -> (r: Self)
        ensures
            r@ == self@,
    {
        Bytes::new(Some(BytesFromType::Raw(self._b.clone())))
    }

    /// The Python-style printable form; the final byte is not scanned.
    #[allow(non_snake_case)]
    pub fn toString(&self) -> (r: String)
        requires
            self@.len() >= 1,
        ensures
            r@ == chars_of(spec_pybytes_repr(self@)),
    {
        PyBytes_Repr(&self._b)
    }

    pub fn hex(&self) -> (r: String)
        ensures
            r@ == spec_hex_encode(self@),
    {
        to_hexstr(&self._b)
    }

    pub fn decode(&self) -> (r: String)
        ensures
            r@ == lossy_decoded(self@),
    {
        vec_to_string(&self._b)
    }

    /// Prefix agreement over all scanned positions: every byte before the
    /// last scanned position agrees; the scan stops one short of the
    /// shorter length.
    pub fn startswith(&self, b: &Bytes) -> (r: bool)
        requires
            self@.len() >= 1,
            b@.len() >= 1,
        ensures
            ({
                let m = vstd::math::min(b@.len() as int, self@.len() as int) - 1;
                r == forall|i: int| 0 <= i < m ==> self@[i] == b@[i]
            }),
    {
        let m = if b.length() < self._b.len() {
            b.length()
        } else {
            self._b.len()
        };
        let mut i: usize = 0;
        while i < m - 1
            invariant
                m == vstd::math::min(b@.len() as int, self@.len() as int),
                1 <= m <= self@.len(),
                m <= b@.len(),
                i <= m - 1,
                forall|j: int| 0 <= j < i ==> self@[j] == b@[j],
            decreases m - 1 - i,
        {
            if b.at(i) != self._b[i] {
                return false;
            }
            i = i + 1;
        }
        true
    }

    /// Suffix-style agreement as scanned here: every byte of the shared
    /// index range above zero agrees, at the same indices in both
    /// strings.
    pub fn endswith(&self, b: &Bytes) -> (r: bool)
        requires
            self@.len() >= 1,
            b@.len() >= 1,
        ensures
            ({
                let m = vstd::math::min(b@.len() as int, self@.len() as int) - 1;
                r == forall|i: int| 1 <= i <= m ==> self@[i] == b@[i]
            }),
    {
        let blen = (if b.length() < self._b.len() {
            b.length()
        } else {
            self._b.len()
        }) - 1;
        let mut i: usize = 0;
        while i < blen
            invariant
                blen == vstd::math::min(b@.len() as int, self@.len() as int) - 1,
                0 <= blen < self@.len(),
                blen < b@.len(),
                i <= blen,
                forall|j: int| blen - i < j <= blen ==> self@[j] == b@[j],
            decreases blen - i,
        {
            if b.at(blen - i) != self._b[blen - i] {
                return false;
            }
            i = i + 1;
        }
        true
    }

    /// Exact equality of the two byte strings.
    pub fn equal_to(&self, b: Bytes) -> (r: bool)
        ensures
            r == (self@ == b@),
    {
        let slen = self._b.len();
        let blen = b.length();
        if slen != blen {
            proof {
                assert(self@ != b@);
            }
            return false;
        }
        let mut i: usize = 0;
        while i < slen
            invariant
                slen == self@.len(),
                slen == b@.len(),
                i <= slen,
                forall|j: int| 0 <= j < i ==> self@[j] == b@[j],
            decreases slen - i,
        {
            if b.at(i) != self._b[i] {
                return false;
            }
            i = i + 1;
        }
        proof {
            assert(self@ =~= b@);
        }
        true
    }
}


/// Byte strings `s` and `o` agree at every position below `i`.
pub open spec fn eq_prefix(s: Seq<u8>, o: Seq<u8>, i: int) -> bool {
    forall|j: int| 0 <= j < i ==> s[j] == o[j]
}

/// The comparison as scanned here: look through the shared prefix, one
/// short of the shorter length, for a position where `other` is strictly
/// larger; failing that, a strictly longer `other` is larger and anything
/// else is equal.
pub open spec fn spec_compare_from(s: Seq<u8>, o: Seq<u8>, i: int) -> core::cmp::Ordering
    decreases vstd::math::min(s.len() as int, o.len() as int) - 1 - i,
{
    let m = vstd::math::min(s.len() as int, o.len() as int) - 1;
    if i < m {
        if o[i] > s[i] {
            core::cmp::Ordering::Greater
        } else {
            spec_compare_from(s, o, i + 1)
        }
    } else {
        if s.len() < o.len() {
            core::cmp::Ordering::Greater
        } else {
            core::cmp::Ordering::Equal
        }
    }
}

impl Bytes {
    /// Compare with another byte string by the scan above.  The scan
    /// subtracts byte from byte, so it is defined only where `other` never
    /// falls below `self` at the first disagreeing position.
    pub fn compare(&self, other: Bytes) -> (r: core::cmp::Ordering)
        requires
            self@.len() >= 1,
            other@.len() >= 1,
            forall|i: int|
                0 <= i < vstd::math::min(self@.len() as int, other@.len() as int) - 1
                    && #[trigger] eq_prefix(self@, other@, i) ==> other@[i] >= self@[i],
        ensures
            r == spec_compare_from(self@, other@, 0),
    {
        let slen = if self._b.len() < other.length() {
            self._b.len()
        } else {
            other.length()
        };
        let mut i: usize = 0;
        while i < slen - 1
            invariant
                slen == vstd::math::min(self@.len() as int, other@.len() as int),
                1 <= slen <= self@.len(),
                slen <= other@.len(),
                i <= slen - 1,
                eq_prefix(self@, other@, i as int),
                spec_compare_from(self@, other@, 0) == spec_compare_from(
                    self@,
                    other@,
                    i as int,
                ),
                forall|q: int|
                    0 <= q < vstd::math::min(self@.len() as int, other@.len() as int) - 1
                        && #[trigger] eq_prefix(self@, other@, q) ==> other@[q] >= self@[q],
            decreases slen - 1 - i,
        {
            proof {
                assert(eq_prefix(self@, other@, i as int));
            }
            let diff = other.at(i) - self._b[i];
            if diff > 0 {
                proof {
                    assert(spec_compare_from(self@, other@, i as int)
                        == core::cmp::Ordering::Greater);
                }
                return core::cmp::Ordering::Greater;
            }
            proof {
                assert(other@[i as int] == self@[i as int]);
                assert(eq_prefix(self@, other@, i + 1 as int));
                assert(spec_compare_from(self@, other@, i as int) == spec_compare_from(
                    self@,
                    other@,
                    i + 1 as int,
                ));
            }
            i = i + 1;
        }
        if self._b.len() < slen {
            return core::cmp::Ordering::Less;
        } else if slen < other.length() {
            return core::cmp::Ordering::Greater;
        }
        core::cmp::Ordering::Equal
    }
}

/// Hash a byte string with SHA-256.
#[allow(non_snake_case)]
pub fn SHA256(value: Bytes) -> (r: Bytes)
    ensures
        r@ == sha256_of(value@),
        r@.len() == 32,
{
    let newvec = sha256_digest(value.data());
    Bytes::new(Some(BytesFromType::Raw(newvec)))
}

} // verus!
