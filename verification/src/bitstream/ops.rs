//! The operations every bit stream offers, whatever owns its words.
//!
//! Each operation's contract is stated over the stream's words
//! ([`ZfpBitStreamOps::spec_words`]) and cursor ([`ZfpBitStreamOps::spec_state`]),
//! with the meaning given by the predicates of [`stream_core`](super::stream_core).

use vstd::prelude::*;
use crate::bitstream::stream_core::{
    align_post, flush_post, offset_modulus, pad_post, read_bit_post, read_bits_post, read_word_post,
    seek_read_post, seek_write_post, skip_post, write_bit_post, write_bits_post, write_word_post,
    BitStreamState, has_room, low_bits,
};

verus! {

/// Calls `bytemuck::cast_slice` to view a word slice as bytes.
///
/// The cast from `u64` to `u8` cannot fail, and it covers the same memory:
/// eight bytes per word. The order of the bytes within a word is the
/// machine's and is not stated here.
#[verifier::external_body]
pub(crate) fn words_as_bytes(words: &[u64]) -> (r: &[u8])
    ensures
        r@.len() == words@.len() * 8,
{
    bytemuck::cast_slice(words)
}

/// Bytes in the whole of `words`.
pub(crate) fn word_buffer_bytes(words: &[u64]) -> (r: usize)
    ensures
        r == words@.len() * 8,
{
    broadcast use vstd::layout::layout_of_slices, vstd::layout::layout_of_primitives;
    core::mem::size_of_val(words)
}

/// The committed part of `words`: those before the word index, clamped to the buffer.
pub(crate) fn committed_words(words: &[u64], word_pos: usize) -> (r: &[u64])
    ensures
        r@ == words@.subrange(0, if word_pos <= words@.len() { word_pos as int } else { words@.len() as int }),
{
    let end = if word_pos <= words.len() { word_pos } else { words.len() };
    &words[0..end]
}

/// Read, cursor and inspection operations of a bit stream.
pub trait ZfpBitStreamOps {
    /// The stream's words.
    spec fn spec_words(&self) -> Seq<u64>;

    /// The stream's cursor.
    spec fn spec_state(&self) -> BitStreamState;

    /// Read one full 64-bit word at the word index (zero past the end).
    fn read_word(&mut self) -> (r: u64)
        ensures
            read_word_post(old(self).spec_words(), old(self).spec_state(), final(self).spec_state(), r),
            final(self).spec_words() == old(self).spec_words(),
    ;

    /// Read `n` bits (0 <= n <= 64) from the stream, LSB first.
    fn read_bits(&mut self, n: u32) -> (r: u64)
        requires
            old(self).spec_state().wf(),
            n <= 64,
        ensures
            read_bits_post(old(self).spec_words(), old(self).spec_state(), final(self).spec_state(), n, r),
            final(self).spec_words() == old(self).spec_words(),
    ;

    /// Read a single bit (0 or 1).
    fn read_bit(&mut self) -> (r: u32)
        requires
            old(self).spec_state().wf(),
        ensures
            read_bit_post(old(self).spec_words(), old(self).spec_state(), final(self).spec_state(), r),
            final(self).spec_words() == old(self).spec_words(),
    ;

    /// Rewind the stream to the beginning (bit position 0).
    fn rewind(&mut self)
        ensures
            final(self).spec_state() == BitStreamState::spec_new(),
            final(self).spec_words() == old(self).spec_words(),
    ;

    /// Position the stream for reading at `offset` bits from the beginning.
    fn seek_read(&mut self, offset: u64)
        ensures
            seek_read_post(old(self).spec_words(), final(self).spec_state(), offset),
            final(self).spec_words() == old(self).spec_words(),
    ;

    /// Return the current read bit offset.
    fn read_pos(&self) -> (r: u64)
        ensures
            r as int == self.spec_state().read_offset() % offset_modulus(),
    ;

    /// Return the current write bit offset.
    fn write_pos(&self) -> (r: u64)
        ensures
            r as int == self.spec_state().write_offset() % offset_modulus(),
    ;

    /// Skip `n` bits forward in the read cursor.
    fn skip(&mut self, n: usize)
        ensures
            skip_post(old(self).spec_words(), old(self).spec_state(), final(self).spec_state(), n),
            final(self).spec_words() == old(self).spec_words(),
    ;

    /// Discard buffered read bits and align to the next word boundary.
    fn align(&mut self) -> (r: u32)
        requires
            old(self).spec_state().wf(),
        ensures
            align_post(old(self).spec_words(), old(self).spec_state(), final(self).spec_state(), r),
            final(self).spec_words() == old(self).spec_words(),
    ;

    /// Total number of bits written so far.
    fn bits_written(&self) -> (r: usize)
        ensures
            r == (self.spec_state().write_offset() % offset_modulus()) as usize,
    ;

    /// Index of the next word to be read or written.
    fn word_pos(&self) -> (r: usize)
        ensures
            r == self.spec_state().word_pos,
    ;

    /// Byte capacity of the stream.
    fn capacity(&self) -> (r: usize)
        ensures
            r == self.spec_words().len() * 8,
    ;

    /// Committed byte size: `word_pos` times the word size.
    fn size(&self) -> (r: usize)
        requires
            self.spec_state().word_pos * 8 <= usize::MAX,
        ensures
            r == self.spec_state().word_pos * 8,
    ;

    /// The backing word buffer.
    fn words(&self) -> (r: &[u64])
        ensures
            r@ == self.spec_words(),
    ;

    /// The committed words (those before the word index) as bytes.
    fn as_bytes(&self) -> (r: &[u8])
        ensures
            r@.len() == (if self.spec_state().word_pos <= self.spec_words().len() { self.spec_state().word_pos as int } else { self.spec_words().len() as int }) * 8,
    ;

    /// The whole backing buffer as bytes.
    fn backing_bytes(&self) -> (r: &[u8])
        ensures
            r@.len() == self.spec_words().len() * 8,
    ;

}

/// Write operations of a bit stream whose words can be changed.
pub trait ZfpBitStreamMutOps: ZfpBitStreamOps {
    /// Write one full 64-bit word; returns the word previously at that position.
    fn write_word(&mut self, word: u64) -> (r: u64)
        requires
            old(self).spec_state().word_pos < old(self).spec_words().len(),
        ensures
            write_word_post(old(self).spec_words(), final(self).spec_words(), old(self).spec_state(), final(self).spec_state(), word, r),
    ;

    /// Write the low `n` bits of `value`; return the overflow (bits above `n`).
    fn write_bits(&mut self, value: u64, n: u32) -> (r: u64)
        requires
            old(self).spec_state().wf(),
            n <= 64,
            old(self).spec_state().bits + n >= 64 ==> old(self).spec_state().word_pos < old(self).spec_words().len(),
        ensures
            write_bits_post(old(self).spec_words(), final(self).spec_words(), old(self).spec_state(), final(self).spec_state(), value, n, r),
    ;

    /// Write a single bit (0 or 1); returns the bit written.
    fn write_bit(&mut self, bit: u32) -> (r: u32)
        requires
            old(self).spec_state().wf(),
            bit <= 1,
            old(self).spec_state().bits == 63 ==> old(self).spec_state().word_pos < old(self).spec_words().len(),
        ensures
            write_bit_post(old(self).spec_words(), final(self).spec_words(), old(self).spec_state(), final(self).spec_state(), bit, r),
    ;

    /// Position the stream for writing at `offset` bits from the beginning.
    fn seek_write(&mut self, offset: u64)
        ensures
            seek_write_post(old(self).spec_words(), final(self).spec_state(), offset),
            final(self).spec_words() == old(self).spec_words(),
    ;

    /// Append `n` zero-bits to the write stream.
    fn pad(&mut self, n: usize)
        requires
            old(self).spec_state().wf(),
            old(self).spec_state().word_pos + (old(self).spec_state().bits + n) / 64 <= old(self).spec_words().len(),
            old(self).spec_state().bits + n <= u64::MAX,
        ensures
            pad_post(old(self).spec_words(), final(self).spec_words(), old(self).spec_state(), final(self).spec_state(), n),
    ;

    /// Flush the write buffer to the next word boundary; return padding bits written.
    fn flush(&mut self) -> (r: usize)
        requires
            old(self).spec_state().wf(),
            old(self).spec_state().bits != 0 ==> old(self).spec_state().word_pos < old(self).spec_words().len(),
        ensures
            flush_post(old(self).spec_words(), final(self).spec_words(), old(self).spec_state(), final(self).spec_state(), r),
    ;

}


/// The first `n` bits that the read cursor `s` delivers from `words`.
pub open spec fn pending_bits(s: BitStreamState, words: Seq<u64>, n: nat) -> Seq<bool> {
    Seq::new(n, |j: int| s.pending(words, j))
}

/// Copy `n` bits from the read cursor of `src` to the write cursor of `dst`,
/// a word at a time.
pub fn copy_bits<D: ZfpBitStreamMutOps, S: ZfpBitStreamOps>(dst: &mut D, src: &mut S, n: usize)
    requires
        old(dst).spec_state().wf(),
        old(src).spec_state().wf(),
        has_room(old(dst).spec_state(), old(dst).spec_words(), n as int),
    ensures
        final(dst).spec_state().wf(),
        final(src).spec_state().wf(),
        final(dst).spec_words().len() == old(dst).spec_words().len(),
        final(dst).spec_state().written(final(dst).spec_words()) == old(dst).spec_state().written(
            old(dst).spec_words(),
        ) + pending_bits(old(src).spec_state(), old(src).spec_words(), n as nat),
        final(src).spec_words() == old(src).spec_words(),
        forall|j: int| 0 <= j ==> #[trigger] final(src).spec_state().pending(final(src).spec_words(), j)
            == old(src).spec_state().pending(old(src).spec_words(), n + j),
{
    let ghost w0 = dst.spec_state().written(dst.spec_words());
    let ghost s0 = src.spec_state();
    let ghost sw = src.spec_words();
    proof {
        assert(w0.len() == dst.spec_state().write_offset());
        assert(w0 + pending_bits(s0, sw, 0) =~= w0);
    }
    let mut left: usize = n;
    while left > 64
        invariant
            left <= n,
            dst.spec_state().wf(),
            src.spec_state().wf(),
            src.spec_words() == sw,
            dst.spec_words().len() == old(dst).spec_words().len(),
            w0.len() == old(dst).spec_state().write_offset(),
            dst.spec_state().written(dst.spec_words()) == w0 + pending_bits(s0, sw, (n - left) as nat),
            dst.spec_state().write_offset() == dst.spec_state().written(dst.spec_words()).len(),
            old(dst).spec_state().write_offset() + n <= old(dst).spec_words().len() * 64,
            forall|j: int| 0 <= j ==> #[trigger] src.spec_state().pending(sw, j) == s0.pending(sw, (n - left) + j),
        decreases left,
    {
        let ghost sp = src.spec_state();
        let w = src.read_bits(64);
        dst.write_bits(w, 64);
        proof {
            let done = (n - left) as nat;
            assert forall|j: int| 0 <= j < 64 implies #[trigger] low_bits(w, 64)[j] == s0.pending(sw, done + j) by {
                assert(sp.pending(sw, j) == s0.pending(sw, done + j));
            }
            assert(low_bits(w, 64) =~= Seq::new(64, |j: int| s0.pending(sw, done + j)));
            assert(w0 + pending_bits(s0, sw, done) + low_bits(w, 64) =~= w0 + pending_bits(s0, sw, done + 64));
        }
        left = left - 64;
    }
    if left > 0 {
        let ghost sp = src.spec_state();
        let w = src.read_bits(left as u32);
        dst.write_bits(w, left as u32);
        proof {
            let done = (n - left) as nat;
            assert forall|j: int| 0 <= j < left implies #[trigger] low_bits(w, left as nat)[j] == s0.pending(sw, done + j) by {
                assert(sp.pending(sw, j) == s0.pending(sw, done + j));
            }
            assert(low_bits(w, left as nat) =~= Seq::new(left as nat, |j: int| s0.pending(sw, done + j)));
            assert(w0 + pending_bits(s0, sw, done) + low_bits(w, left as nat) =~= w0 + pending_bits(s0, sw, n as nat));
        }
    }
}

} // verus!
