//! A bit stream that owns its word buffer.

use vstd::prelude::*;
use crate::bitstream::ops::{
    committed_words, copy_bits, pending_bits, word_buffer_bytes, words_as_bytes, ZfpBitStreamMutOps, ZfpBitStreamOps,
};
use crate::bitstream::stream_core;
use crate::bitstream::stream_core::has_room;
use crate::compress::{compress_post, compress_pre};
use crate::config::ZfpConfig;
use crate::decompress::{decompress_post, decompress_pre};
use crate::execution::ZfpExecution;
use crate::field::{spec_field_metadata, ZfpField, ZfpFieldMut};
use crate::header::{has_section, header_bits, read_header_bs, read_header_post, write_header_bs, ZfpHeader, ZfpHeaderError};
use crate::types::{ZfpCompressionError, ZfpDecompressionError, ZfpHeaderMask};
use crate::bitstream::stream_core::{
    align_post, flush_post, offset_modulus, pad_post, read_bit_post, read_bits_post, read_word_post,
    seek_read_post, seek_write_post, skip_post, write_bit_post, write_bits_post, write_word_post,
    BitStreamState, stored_bits, zero_bits,
};

verus! {

/// Calls `bytemuck::try_cast_slice` to view a byte slice as 64-bit words.
///
/// bytemuck succeeds exactly when the slice's address is aligned for `u64`
/// and its length is a multiple of eight; the address is the allocator's, so
/// only the length of a success is stated. The word values are the bytes in
/// the machine's byte order and are not stated here.
#[verifier::external_body]
pub(crate) fn bytes_as_words(bytes: &[u8]) -> (r: Option<&[u64]>)
    ensures
        r matches Some(w) ==> bytes@.len() % 8 == 0 && w@.len() == bytes@.len() / 8,
{
    bytemuck::try_cast_slice::<u8, u64>(bytes).ok()
}

/// Calls `u64::from_ne_bytes` on eight bytes taken from `chunk` at `start`.
///
/// The word's value depends on the machine's byte order and is not stated here.
#[verifier::external_body]
fn word_from_ne_bytes(chunk: &[u8], start: usize) -> (r: u64)
    requires
        start + 8 <= chunk@.len(),
{
    u64::from_ne_bytes([
        chunk[start], chunk[start + 1], chunk[start + 2], chunk[start + 3],
        chunk[start + 4], chunk[start + 5], chunk[start + 6], chunk[start + 7],
    ])
}

/// The words stored in `buf`, eight bytes each in the machine's byte order;
/// a trailing partial word is dropped.
pub(crate) fn bytes_to_words(buf: &[u8]) -> (r: Vec<u64>)
    ensures
        r@.len() == buf@.len() / 8,
{
    let nwords = buf.len() / 8;
    let whole = &buf[0..nwords * 8];
    match bytes_as_words(whole) {
        Some(words) => {
            let mut out: Vec<u64> = Vec::new();
            let mut i: usize = 0;
            while i < words.len()
                invariant
                    i <= words@.len(),
                    out@ == words@.subrange(0, i as int),
                decreases words@.len() - i,
            {
                out.push(words[i]);
                i = i + 1;
            }
            out
        },
        None => {
            let blen = buf.len();
            let mut out: Vec<u64> = Vec::new();
            let mut i: usize = 0;
            while i < nwords
                invariant
                    i <= nwords,
                    nwords == buf@.len() / 8,
                    blen == buf@.len(),
                    out@.len() == i,
                decreases nwords - i,
            {
                assert(i * 8 + 8 <= buf@.len()) by (nonlinear_arith)
                    requires
                        i < nwords,
                        nwords == buf@.len() / 8,
                        blen == buf@.len(),
                ;
                out.push(word_from_ne_bytes(buf, i * 8));
                i = i + 1;
            }
            out
        },
    }
}

/// A bit stream that owns its 64-bit words and a read/write cursor.
pub struct ZfpBitStream {
    words: Vec<u64>,
    state: BitStreamState,
}

impl ZfpBitStream {
    /// A stream of `capacity` bytes, rounded up to whole words, all zero.
    pub fn new(capacity: usize) -> (r: Self)
        ensures
            r.spec_words() == Seq::new(((capacity as int + 7) / 8) as nat, |i: int| 0u64),
            r.spec_state() == BitStreamState::spec_new(),
    {
        let nwords = capacity / 8 + (if capacity % 8 == 0 { 0 } else { 1 });
        let mut words: Vec<u64> = Vec::new();
        let mut i: usize = 0;
        while i < nwords
            invariant
                i <= nwords,
                words@ == Seq::new(i as nat, |k: int| 0u64),
            decreases nwords - i,
        {
            words.push(0);
            i = i + 1;
        }
        ZfpBitStream { words, state: BitStreamState::new() }
    }

    /// Take ownership of a word buffer, with the cursor at the start.
    pub fn from_buffer(words: Vec<u64>) -> (r: Self)
        ensures
            r.spec_words() == words@,
            r.spec_state() == BitStreamState::spec_new(),
    {
        ZfpBitStream { words, state: BitStreamState::new() }
    }

    /// Copy a byte buffer into whole words (eight bytes each, in the machine's byte
    /// order; a trailing partial word is dropped), with the cursor at the start.
    pub fn from_bytes(buf: &[u8]) -> (r: Self)
        ensures
            r.spec_words().len() == buf@.len() / 8,
            r.spec_state() == BitStreamState::spec_new(),
    {
        ZfpBitStream::from_buffer(bytes_to_words(buf))
    }

    /// Flush the pending bits and hand back the word buffer.
    pub fn into_words(self) -> (r: Vec<u64>)
        requires
            self.spec_state().wf(),
            self.spec_state().bits != 0 ==> self.spec_state().word_pos < self.spec_words().len(),
        ensures
            r@.len() == self.spec_words().len(),
            stored_bits(r@, (self.spec_state().write_offset() + (64 - self.spec_state().bits) % 64) as nat)
                == self.spec_state().written(self.spec_words()) + zero_bits(((64 - self.spec_state().bits) % 64) as nat),
            forall|i: int|
                0 <= i < r@.len() && i != self.spec_state().word_pos ==> #[trigger] r@[i] == self.spec_words()[i],
            self.spec_state().bits == 0 ==> r@ == self.spec_words(),
    {
        let mut s = self;
        let _ = s.flush();
        proof {
            assert(s.state.written(s.words@) =~= stored_bits(s.words@, s.state.write_offset() as nat));
        }
        s.words
    }

    /// Read one full 64-bit word at the word index (zero past the end).
    pub fn read_word(&mut self) -> (r: u64)
        ensures
            read_word_post(old(self).spec_words(), old(self).spec_state(), final(self).spec_state(), r),
            final(self).spec_words() == old(self).spec_words(),
    {
        ZfpBitStreamOps::read_word(self)
    }

    /// Read `n` bits (0 <= n <= 64) from the stream, LSB first.
    pub fn read_bits(&mut self, n: u32) -> (r: u64)
        requires
            old(self).spec_state().wf(),
            n <= 64,
        ensures
            read_bits_post(old(self).spec_words(), old(self).spec_state(), final(self).spec_state(), n, r),
            final(self).spec_words() == old(self).spec_words(),
    {
        ZfpBitStreamOps::read_bits(self, n)
    }

    /// Read a single bit (0 or 1).
    pub fn read_bit(&mut self) -> (r: u32)
        requires
            old(self).spec_state().wf(),
        ensures
            read_bit_post(old(self).spec_words(), old(self).spec_state(), final(self).spec_state(), r),
            final(self).spec_words() == old(self).spec_words(),
    {
        ZfpBitStreamOps::read_bit(self)
    }

    /// Rewind the stream to the beginning (bit position 0).
    pub fn rewind(&mut self)
        ensures
            final(self).spec_state() == BitStreamState::spec_new(),
            final(self).spec_words() == old(self).spec_words(),
    {
        ZfpBitStreamOps::rewind(self)
    }

    /// Position the stream for reading at `offset` bits from the beginning.
    pub fn seek_read(&mut self, offset: u64)
        ensures
            seek_read_post(old(self).spec_words(), final(self).spec_state(), offset),
            final(self).spec_words() == old(self).spec_words(),
    {
        ZfpBitStreamOps::seek_read(self, offset)
    }

    /// Return the current read bit offset.
    pub fn read_pos(&self) -> (r: u64)
        ensures
            r as int == self.spec_state().read_offset() % offset_modulus(),
    {
        ZfpBitStreamOps::read_pos(self)
    }

    /// Return the current write bit offset.
    pub fn write_pos(&self) -> (r: u64)
        ensures
            r as int == self.spec_state().write_offset() % offset_modulus(),
    {
        ZfpBitStreamOps::write_pos(self)
    }

    /// Skip `n` bits forward in the read cursor.
    pub fn skip(&mut self, n: usize)
        ensures
            skip_post(old(self).spec_words(), old(self).spec_state(), final(self).spec_state(), n),
            final(self).spec_words() == old(self).spec_words(),
    {
        ZfpBitStreamOps::skip(self, n)
    }

    /// Discard buffered read bits and align to the next word boundary.
    pub fn align(&mut self) -> (r: u32)
        requires
            old(self).spec_state().wf(),
        ensures
            align_post(old(self).spec_words(), old(self).spec_state(), final(self).spec_state(), r),
            final(self).spec_words() == old(self).spec_words(),
    {
        ZfpBitStreamOps::align(self)
    }

    /// Write one full 64-bit word; returns the word previously at that position.
    pub fn write_word(&mut self, word: u64) -> (r: u64)
        requires
            old(self).spec_state().word_pos < old(self).spec_words().len(),
        ensures
            write_word_post(old(self).spec_words(), final(self).spec_words(), old(self).spec_state(), final(self).spec_state(), word, r),
    {
        ZfpBitStreamMutOps::write_word(self, word)
    }

    /// Write the low `n` bits of `value`; return the overflow (bits above `n`).
    pub fn write_bits(&mut self, value: u64, n: u32) -> (r: u64)
        requires
            old(self).spec_state().wf(),
            n <= 64,
            old(self).spec_state().bits + n >= 64 ==> old(self).spec_state().word_pos < old(self).spec_words().len(),
        ensures
            write_bits_post(old(self).spec_words(), final(self).spec_words(), old(self).spec_state(), final(self).spec_state(), value, n, r),
    {
        ZfpBitStreamMutOps::write_bits(self, value, n)
    }

    /// Write a single bit (0 or 1); returns the bit written.
    pub fn write_bit(&mut self, bit: u32) -> (r: u32)
        requires
            old(self).spec_state().wf(),
            bit <= 1,
            old(self).spec_state().bits == 63 ==> old(self).spec_state().word_pos < old(self).spec_words().len(),
        ensures
            write_bit_post(old(self).spec_words(), final(self).spec_words(), old(self).spec_state(), final(self).spec_state(), bit, r),
    {
        ZfpBitStreamMutOps::write_bit(self, bit)
    }

    /// Position the stream for writing at `offset` bits from the beginning.
    pub fn seek_write(&mut self, offset: u64)
        ensures
            seek_write_post(old(self).spec_words(), final(self).spec_state(), offset),
            final(self).spec_words() == old(self).spec_words(),
    {
        ZfpBitStreamMutOps::seek_write(self, offset)
    }

    /// Append `n` zero-bits to the write stream.
    pub fn pad(&mut self, n: usize)
        requires
            old(self).spec_state().wf(),
            old(self).spec_state().word_pos + (old(self).spec_state().bits + n) / 64 <= old(self).spec_words().len(),
            old(self).spec_state().bits + n <= u64::MAX,
        ensures
            pad_post(old(self).spec_words(), final(self).spec_words(), old(self).spec_state(), final(self).spec_state(), n),
    {
        ZfpBitStreamMutOps::pad(self, n)
    }

    /// Flush the write buffer to the next word boundary; return padding bits written.
    pub fn flush(&mut self) -> (r: usize)
        requires
            old(self).spec_state().wf(),
            old(self).spec_state().bits != 0 ==> old(self).spec_state().word_pos < old(self).spec_words().len(),
        ensures
            flush_post(old(self).spec_words(), final(self).spec_words(), old(self).spec_state(), final(self).spec_state(), r),
    {
        ZfpBitStreamMutOps::flush(self)
    }

    /// Copy `n` bits from the read cursor of `src` to this stream's write cursor.
    pub fn copy_from<S: ZfpBitStreamOps>(&mut self, src: &mut S, n: usize)
        requires
            old(self).spec_state().wf(),
            old(src).spec_state().wf(),
            has_room(old(self).spec_state(), old(self).spec_words(), n as int),
        ensures
            final(self).spec_state().wf(),
            final(src).spec_state().wf(),
            final(self).spec_words().len() == old(self).spec_words().len(),
            final(self).spec_state().written(final(self).spec_words()) == old(self).spec_state().written(
                old(self).spec_words(),
            ) + pending_bits(old(src).spec_state(), old(src).spec_words(), n as nat),
            final(src).spec_words() == old(src).spec_words(),
            forall|j: int| 0 <= j ==> #[trigger] final(src).spec_state().pending(final(src).spec_words(), j)
                == old(src).spec_state().pending(old(src).spec_words(), n + j),
    {
        copy_bits(self, src, n)
    }

    /// The partial word of the cursor.
    pub fn buffer_value(&self) -> (r: u64)
        ensures
            r == self.spec_state().buffer,
    {
        self.state.buffer
    }

    /// The number of bits held in the partial word.
    pub fn buffer_bits(&self) -> (r: u32)
        ensures
            r == self.spec_state().bits,
    {
        self.state.bits
    }

    /// The word at `index`, without moving the cursor.
    pub fn word_at(&self, index: usize) -> (r: u64)
        requires
            index < self.spec_words().len(),
        ensures
            r == self.spec_words()[index as int],
    {
        self.words[index]
    }

    /// Byte capacity of the stream.
    pub fn capacity(&self) -> (r: usize)
        ensures
            r == self.spec_words().len() * 8,
    {
        ZfpBitStreamOps::capacity(self)
    }

    /// Committed byte size: the word index times the word size.
    pub fn size(&self) -> (r: usize)
        requires
            self.spec_state().word_pos * 8 <= usize::MAX,
        ensures
            r == self.spec_state().word_pos * 8,
    {
        ZfpBitStreamOps::size(self)
    }

    /// Total number of bits written so far.
    pub fn bits_written(&self) -> (r: usize)
        ensures
            r == (self.spec_state().write_offset() % offset_modulus()) as usize,
    {
        ZfpBitStreamOps::bits_written(self)
    }

    /// Index of the next word to be read or written.
    pub fn word_pos(&self) -> (r: usize)
        ensures
            r == self.spec_state().word_pos,
    {
        self.state.word_pos
    }

    /// The committed words (those before the word index) as bytes.
    pub fn as_bytes(&self) -> (r: &[u8])
        ensures
            r@.len() == (if self.spec_state().word_pos <= self.spec_words().len() {
                self.spec_state().word_pos as int
            } else {
                self.spec_words().len() as int
            }) * 8,
    {
        ZfpBitStreamOps::as_bytes(self)
    }

    /// Compress a field into this stream with the configuration's parameters
    /// and flush it; return the stream's byte size.
    pub fn compress(&mut self, config: &ZfpConfig, field: &ZfpField) -> (r: Result<usize, ZfpCompressionError>)
        requires
            compress_pre(old(self).spec_state(), old(self).spec_words(), *field, *config),
        ensures
            compress_post(
                old(self).spec_state(),
                old(self).spec_words(),
                final(self).spec_state(),
                final(self).spec_words(),
                *field,
                *config,
                r,
            ),
    {
        crate::compress::compress(self, field, config)
    }

    /// Decompress this stream into a field with the configuration's
    /// parameters; return the stream's byte size.
    pub fn decompress(&mut self, config: &ZfpConfig, field: &mut ZfpFieldMut) -> (r: Result<usize, ZfpDecompressionError>)
        requires
            decompress_pre(
                old(self).spec_state(),
                old(field).spec_data().len() as int,
                old(field).spec_scalar_type(),
                old(field).spec_dims(),
                old(field).spec_strides(),
            ),
        ensures
            final(field).spec_scalar_type() == old(field).spec_scalar_type(),
            final(field).spec_dims() == old(field).spec_dims(),
            final(field).spec_strides() == old(field).spec_strides(),
            decompress_post(
                old(self).spec_state(),
                old(self).spec_words(),
                final(self).spec_state(),
                final(self).spec_words(),
                old(field).spec_data(),
                old(field).spec_scalar_type(),
                old(field).spec_dims(),
                old(field).spec_strides(),
                final(field).spec_data(),
                *config,
                r,
            ),
    {
        crate::decompress::decompress(self, field, config)
    }

    /// Write the header sections that `mask` selects: magic, field metadata
    /// and the configuration's mode word; return the bits written (zero when
    /// metadata is selected and the field has none).
    pub fn write_header(&mut self, config: &ZfpConfig, field: &ZfpField, mask: ZfpHeaderMask) -> (r: usize)
        requires
            old(self).spec_state().wf(),
                has_room(old(self).spec_state(), old(self).spec_words(), 148),
        ensures
            final(self).spec_state().wf(),
            final(self).spec_words().len() == old(self).spec_words().len(),
            ({
                let m = spec_field_metadata(field.spec_scalar_type(), field.spec_dims());
                if has_section(mask, 2) && m is Err {
                    &&& r == 0
                    &&& final(self).spec_state().written(final(self).spec_words()) == old(self).spec_state().written(
                        old(self).spec_words(),
                    )
                } else {
                    let w = header_bits(mask, if m is Ok { m->Ok_0 } else { 0 }, config.spec_mode_word());
                    &&& r == w.len()
                    &&& final(self).spec_state().written(final(self).spec_words()) == old(self).spec_state().written(
                        old(self).spec_words(),
                    ) + w
                }
            }),
    {
        let mode = config.mode_bits();
        write_header_bs(self, field, mask, mode)
    }

    /// Read the header sections that `mask` selects.
    pub fn read_header(&mut self, mask: ZfpHeaderMask) -> (r: Result<ZfpHeader, ZfpHeaderError>)
        requires
            old(self).spec_state().wf(),
        ensures
            read_header_post(
                old(self).spec_state(),
                old(self).spec_words(),
                final(self).spec_state(),
                final(self).spec_words(),
                mask,
                r,
            ),
    {
        read_header_bs(self, mask)
    }

    /// Compress a field into this stream under an execution policy; every
    /// policy writes the same stream as `compress`.
    pub fn compress_with_execution(
        &mut self,
        config: &ZfpConfig,
        field: &ZfpField,
        execution: ZfpExecution,
    ) -> (r: Result<usize, ZfpCompressionError>)
        requires
            compress_pre(old(self).spec_state(), old(self).spec_words(), *field, *config),
        ensures
            compress_post(
                old(self).spec_state(),
                old(self).spec_words(),
                final(self).spec_state(),
                final(self).spec_words(),
                *field,
                *config,
                r,
            ),
    {
        match execution {
            ZfpExecution::Serial => crate::compress::compress(self, field, config),
            ZfpExecution::Rayon { threads, chunk_size } => crate::compress::compress_in_chunks(self, field, config, threads, chunk_size),
        }
    }

    /// Decompress this stream into a field under an execution policy; every
    /// policy gives the same field as `decompress`.
    pub fn decompress_with_execution(
        &mut self,
        config: &ZfpConfig,
        field: &mut ZfpFieldMut,
        execution: ZfpExecution,
    ) -> (r: Result<usize, ZfpDecompressionError>)
        requires
            decompress_pre(
                old(self).spec_state(),
                old(field).spec_data().len() as int,
                old(field).spec_scalar_type(),
                old(field).spec_dims(),
                old(field).spec_strides(),
            ),
        ensures
            final(field).spec_scalar_type() == old(field).spec_scalar_type(),
            final(field).spec_dims() == old(field).spec_dims(),
            final(field).spec_strides() == old(field).spec_strides(),
            decompress_post(
                old(self).spec_state(),
                old(self).spec_words(),
                final(self).spec_state(),
                final(self).spec_words(),
                old(field).spec_data(),
                old(field).spec_scalar_type(),
                old(field).spec_dims(),
                old(field).spec_strides(),
                final(field).spec_data(),
                *config,
                r,
            ),
    {
        match execution {
            ZfpExecution::Serial => crate::decompress::decompress(self, field, config),
            ZfpExecution::Rayon { .. } => crate::decompress::decompress(self, field, config),
        }
    }

    /// Flush the pending bits and hand back the committed bytes.
    pub fn into_vec(self) -> (r: Vec<u8>)
        requires
            self.spec_state().wf(),
            self.spec_state().bits != 0 ==> self.spec_state().word_pos < self.spec_words().len(),
        ensures
            ({
                let end = self.spec_state().word_pos + (if self.spec_state().bits == 0 { 0int } else { 1 });
                r@.len() == (if end <= self.spec_words().len() { end } else { self.spec_words().len() as int }) * 8
            }),
    {
        let mut s = self;
        let _ = s.flush();
        let bytes = s.as_bytes();
        let mut out: Vec<u8> = Vec::new();
        let mut i: usize = 0;
        while i < bytes.len()
            invariant
                i <= bytes@.len(),
                out@ == bytes@.subrange(0, i as int),
            decreases bytes@.len() - i,
        {
            out.push(bytes[i]);
            i = i + 1;
        }
        out
    }
}

impl ZfpBitStreamOps for ZfpBitStream {
    closed spec fn spec_words(&self) -> Seq<u64> {
        self.words@
    }

    closed spec fn spec_state(&self) -> BitStreamState {
        self.state
    }

    fn read_word(&mut self) -> (r: u64) {
        stream_core::read_word(self.words.as_slice(), &mut self.state)
    }

    fn read_bits(&mut self, n: u32) -> (r: u64) {
        stream_core::read_bits(self.words.as_slice(), &mut self.state, n)
    }

    fn read_bit(&mut self) -> (r: u32) {
        stream_core::read_bit(self.words.as_slice(), &mut self.state)
    }

    fn rewind(&mut self) {
        stream_core::rewind(&mut self.state)
    }

    fn seek_read(&mut self, offset: u64) {
        stream_core::seek_read(self.words.as_slice(), &mut self.state, offset)
    }

    fn read_pos(&self) -> (r: u64) {
        stream_core::read_pos(&self.state)
    }

    fn write_pos(&self) -> (r: u64) {
        stream_core::write_pos(&self.state)
    }

    fn skip(&mut self, n: usize) {
        stream_core::skip(self.words.as_slice(), &mut self.state, n)
    }

    fn align(&mut self) -> (r: u32) {
        stream_core::align(self.words.as_slice(), &mut self.state)
    }

    fn bits_written(&self) -> (r: usize) {
        stream_core::write_pos(&self.state) as usize
    }

    fn word_pos(&self) -> (r: usize) {
        self.state.word_pos
    }

    fn capacity(&self) -> (r: usize) {
        word_buffer_bytes(self.words.as_slice())
    }

    fn size(&self) -> (r: usize) {
        self.state.word_pos * 8
    }

    fn words(&self) -> (r: &[u64]) {
        self.words.as_slice()
    }

    fn as_bytes(&self) -> (r: &[u8]) {
        words_as_bytes(committed_words(self.words.as_slice(), self.state.word_pos))
    }

    fn backing_bytes(&self) -> (r: &[u8]) {
        words_as_bytes(self.words.as_slice())
    }
}

impl ZfpBitStreamMutOps for ZfpBitStream {
    fn write_word(&mut self, word: u64) -> (r: u64) {
        stream_core::write_word(self.words.as_mut_slice(), &mut self.state, word)
    }

    fn write_bits(&mut self, value: u64, n: u32) -> (r: u64) {
        stream_core::write_bits(self.words.as_mut_slice(), &mut self.state, value, n)
    }

    fn write_bit(&mut self, bit: u32) -> (r: u32) {
        stream_core::write_bit(self.words.as_mut_slice(), &mut self.state, bit)
    }

    fn seek_write(&mut self, offset: u64) {
        stream_core::seek_write(self.words.as_slice(), &mut self.state, offset)
    }

    fn pad(&mut self, n: usize) {
        stream_core::pad(self.words.as_mut_slice(), &mut self.state, n)
    }

    fn flush(&mut self) -> (r: usize) {
        stream_core::flush(self.words.as_mut_slice(), &mut self.state)
    }
}

} // verus!
