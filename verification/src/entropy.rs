//! The entropy seam: a source of 32-bit words, and a replay source over a
//! fixed byte buffer that yields zero once exhausted.

use vstd::prelude::*;

verus! {

/// The first word a stream yields; an exhausted stream yields zero.
pub open spec fn stream_first(s: Seq<u32>) -> u32 {
    if s.len() == 0 {
        0u32
    } else {
        s[0]
    }
}

/// What remains of a stream after one read; an exhausted stream stays
/// exhausted.
pub open spec fn stream_rest(s: Seq<u32>) -> Seq<u32> {
    if s.len() == 0 {
        s
    } else {
        s.drop_first()
    }
}

/// A source of unsigned 32-bit words.  Its model is the finite sequence of
/// words still to come; past that sequence every read yields zero.
pub trait EntropySource: Sized {
    /// The words this source will yield before it is exhausted.
    spec fn stream(&self) -> Seq<u32>;

    /// Read the next word.
    fn next_word(&mut self) -> (w: u32)
        ensures
            w == stream_first(old(self).stream()),
            final(self).stream() == stream_rest(old(self).stream()),
    ;
}

/// The byte at `pos`, or zero past the end of the buffer.
pub open spec fn byte_at(data: Seq<u8>, pos: int) -> u8 {
    if 0 <= pos < data.len() {
        data[pos]
    } else {
        0u8
    }
}

/// The big-endian 32-bit word starting at `pos`, zero-padded past the end.
pub open spec fn word_at(data: Seq<u8>, pos: int) -> u32 {
    ((byte_at(data, pos) as u32) << 24u32) | ((byte_at(data, pos + 1) as u32) << 16u32) | ((
    byte_at(data, pos + 2) as u32) << 8u32) | (byte_at(data, pos + 3) as u32)
}

/// The words remaining in a buffer read big-endian four bytes at a time
/// from `pos`, the last word zero-padded.
pub open spec fn words_from(data: Seq<u8>, pos: int) -> Seq<u32>
    decreases data.len() - pos,
{
    if pos < 0 || pos >= data.len() {
        Seq::empty()
    } else {
        seq![word_at(data, pos)] + words_from(
            data,
            if pos + 4 <= data.len() {
                pos + 4
            } else {
                data.len() as int
            },
        )
    }
}

/// A replay source over a fixed byte buffer: words are read big-endian four
/// bytes at a time, and a fully consumed buffer yields zero forever.
pub struct ReplaySource {
    data: Vec<u8>,
    progress: usize,
}

impl ReplaySource {
    /// A replay source at the start of the given buffer.
    pub fn new(data: Vec<u8>) -> (r: Self)
        ensures
            r.stream() == words_from(data@, 0),
    {
        ReplaySource { data, progress: 0 }
    }

    /// One byte of the buffer, or zero once it is exhausted.
    fn next_byte(&mut self) -> (b: u8)
        ensures
            b == byte_at(old(self).data@, old(self).progress as int),
            final(self).data == old(self).data,
            old(self).progress < old(self).data@.len() ==> final(self).progress == old(
                self,
            ).progress + 1,
            old(self).progress >= old(self).data@.len() ==> final(self).progress == old(
                self,
            ).progress,
    {
        if self.progress >= self.data.len() {
            return 0;
        }
        let res = self.data[self.progress];
        self.progress = self.progress + 1;
        res
    }
}

impl EntropySource for ReplaySource {
    closed spec fn stream(&self) -> Seq<u32> {
        words_from(self.data@, self.progress as int)
    }

    fn next_word(&mut self) -> (w: u32) {
        let ghost d = self.data@;
        let ghost p0 = self.progress as int;
        let b0 = self.next_byte();
        let b1 = self.next_byte();
        let b2 = self.next_byte();
        let b3 = self.next_byte();
        let w = ((b0 as u32) << 24u32) | ((b1 as u32) << 16u32) | ((b2 as u32) << 8u32) | (
        b3 as u32);
        proof {
            if p0 >= d.len() {
                assert(self.stream() =~= words_from(d, p0));
                assert(w == 0u32) by (bit_vector)
                    requires
                        b0 == 0u8 && b1 == 0u8 && b2 == 0u8 && b3 == 0u8 && w == ((b0 as u32)
                            << 24u32) | ((b1 as u32) << 16u32) | ((b2 as u32) << 8u32) | (
                        b3 as u32),
                ;
            } else {
                assert(w == word_at(d, p0));
            }
        }
        w
    }
}

} // verus!
