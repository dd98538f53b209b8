//! Bit streams over a borrowed word buffer: read-only and writable.

use vstd::prelude::*;
use crate::bitstream::ops::{committed_words, word_buffer_bytes, words_as_bytes, ZfpBitStreamMutOps, ZfpBitStreamOps};
use crate::bitstream::owned::bytes_as_words;
use crate::bitstream::stream_core;
use crate::compress::{compress_post, compress_pre};
use crate::config::ZfpConfig;
use crate::decompress::{decompress_post, decompress_pre};
use crate::execution::ZfpExecution;
use crate::field::{ZfpField, ZfpFieldMut};
use crate::types::{ZfpCompressionError, ZfpDecompressionError};
use crate::bitstream::stream_core::{
    align_post, flush_post, offset_modulus, pad_post, read_bit_post, read_bits_post, read_word_post,
    seek_read_post, seek_write_post, skip_post, write_bit_post, write_bits_post, write_word_post,
    BitStreamState,
};

verus! {

/// Calls `bytemuck::try_cast_slice_mut` to view a byte slice as 64-bit words.
///
/// bytemuck succeeds exactly when the slice's address is aligned for `u64`
/// and its length is a multiple of eight; the address is the allocator's, so
/// only the length of a success is stated. The word values are the bytes in
/// the machine's byte order and are not stated here.
#[verifier::external_body]
fn bytes_as_words_mut(bytes: &mut [u8]) -> (r: Option<&mut [u64]>)
    ensures
        r matches Some(w) ==> old(bytes)@.len() % 8 == 0 && w@.len() == old(bytes)@.len() / 8,
{
    bytemuck::try_cast_slice_mut::<u8, u64>(bytes).ok()
}

/// A read-only bit stream over borrowed words.
pub struct ZfpBitStreamRef<'a> {
    words: &'a [u64],
    state: BitStreamState,
}

impl<'a> ZfpBitStreamRef<'a> {
    /// Borrow a word buffer, with the cursor at the start.
    pub fn from_words(words: &'a [u64]) -> (r: Self)
        ensures
            r.spec_words() == words@,
            r.spec_state() == BitStreamState::spec_new(),
    {
        ZfpBitStreamRef { words, state: BitStreamState::new() }
    }

    /// Borrow the whole words of a byte buffer (a trailing partial word is
    /// ignored); `None` when the buffer is not aligned for 64-bit words.
    pub fn from_bytes(buf: &'a [u8]) -> (r: Option<Self>)
        ensures
            r matches Some(s) ==> s.spec_words().len() == buf@.len() / 8 && s.spec_state()
                == BitStreamState::spec_new(),
    {
        let nwords = buf.len() / 8;
        let whole = &buf[0..nwords * 8];
        match bytes_as_words(whole) {
            Some(words) => Some(ZfpBitStreamRef::from_words(words)),
            None => None,
        }
    }
}

/// A writable bit stream over borrowed words.
pub struct ZfpBitStreamRefMut<'a> {
    words: &'a mut [u64],
    state: BitStreamState,
}

impl<'a> ZfpBitStreamRefMut<'a> {
    /// Borrow a word buffer for writing, with the cursor at the start.
    pub fn from_words_mut(words: &'a mut [u64]) -> (r: Self)
        ensures
            r.spec_words() == old(words)@,
            r.spec_state() == BitStreamState::spec_new(),
    {
        ZfpBitStreamRefMut { words, state: BitStreamState::new() }
    }

    /// Hand back the borrowed words, holding everything written to them.
    pub fn into_words(self) -> (r: &'a mut [u64])
        ensures
            r@ == self.spec_words(),
    {
        self.words
    }

    /// Compress a field into this stream under an execution policy; every
    /// policy writes the same stream as `compress`.
    pub fn compress_with_execution(
        &mut self,
        config: &ZfpConfig,
        field: &ZfpField,
        execution: ZfpExecution,
    ) -> (r: Result<usize, ZfpCompressionError>)
        requires
            compress_pre(old(self).spec_state(), old(self).spec_words(), *field, *config),
        ensures
            compress_post(
                old(self).spec_state(),
                old(self).spec_words(),
                final(self).spec_state(),
                final(self).spec_words(),
                *field,
                *config,
                r,
            ),
    {
        match execution {
            ZfpExecution::Serial => crate::compress::compress(self, field, config),
            ZfpExecution::Rayon { threads, chunk_size } => crate::compress::compress_in_chunks(self, field, config, threads, chunk_size),
        }
    }

    /// Decompress this stream into a field under an execution policy; every
    /// policy gives the same field as `decompress`.
    pub fn decompress_with_execution(
        &mut self,
        config: &ZfpConfig,
        field: &mut ZfpFieldMut,
        execution: ZfpExecution,
    ) -> (r: Result<usize, ZfpDecompressionError>)
        requires
            decompress_pre(
                old(self).spec_state(),
                old(field).spec_data().len() as int,
                old(field).spec_scalar_type(),
                old(field).spec_dims(),
                old(field).spec_strides(),
            ),
        ensures
            final(field).spec_scalar_type() == old(field).spec_scalar_type(),
            final(field).spec_dims() == old(field).spec_dims(),
            final(field).spec_strides() == old(field).spec_strides(),
            decompress_post(
                old(self).spec_state(),
                old(self).spec_words(),
                final(self).spec_state(),
                final(self).spec_words(),
                old(field).spec_data(),
                old(field).spec_scalar_type(),
                old(field).spec_dims(),
                old(field).spec_strides(),
                final(field).spec_data(),
                *config,
                r,
            ),
    {
        match execution {
            ZfpExecution::Serial => crate::decompress::decompress(self, field, config),
            ZfpExecution::Rayon { .. } => crate::decompress::decompress(self, field, config),
        }
    }

    /// Borrow the whole words of a byte buffer for writing (a trailing partial
    /// word is ignored); `None` when the buffer is not aligned for 64-bit words.
    pub fn from_bytes_mut(buf: &'a mut [u8]) -> (r: Option<Self>)
        ensures
            r matches Some(s) ==> s.spec_words().len() == old(buf)@.len() / 8 && s.spec_state()
                == BitStreamState::spec_new(),
    {
        let nwords = buf.len() / 8;
        let (whole, _rest) = buf.split_at_mut(nwords * 8);
        match bytes_as_words_mut(whole) {
            Some(words) => Some(ZfpBitStreamRefMut::from_words_mut(words)),
            None => None,
        }
    }
}

impl<'a> ZfpBitStreamOps for ZfpBitStreamRef<'a> {
    closed spec fn spec_words(&self) -> Seq<u64> {
        self.words@
    }

    closed spec fn spec_state(&self) -> BitStreamState {
        self.state
    }

    fn read_word(&mut self) -> (r: u64) {
        stream_core::read_word(self.words, &mut self.state)
    }

    fn read_bits(&mut self, n: u32) -> (r: u64) {
        stream_core::read_bits(self.words, &mut self.state, n)
    }

    fn read_bit(&mut self) -> (r: u32) {
        stream_core::read_bit(self.words, &mut self.state)
    }

    fn rewind(&mut self) {
        stream_core::rewind(&mut self.state)
    }

    fn seek_read(&mut self, offset: u64) {
        stream_core::seek_read(self.words, &mut self.state, offset)
    }

    fn read_pos(&self) -> (r: u64) {
        stream_core::read_pos(&self.state)
    }

    fn write_pos(&self) -> (r: u64) {
        stream_core::write_pos(&self.state)
    }

    fn skip(&mut self, n: usize) {
        stream_core::skip(self.words, &mut self.state, n)
    }

    fn align(&mut self) -> (r: u32) {
        stream_core::align(self.words, &mut self.state)
    }

    fn bits_written(&self) -> (r: usize) {
        stream_core::write_pos(&self.state) as usize
    }

    fn word_pos(&self) -> (r: usize) {
        self.state.word_pos
    }

    fn capacity(&self) -> (r: usize) {
        word_buffer_bytes(self.words)
    }

    fn size(&self) -> (r: usize) {
        self.state.word_pos * 8
    }

    fn words(&self) -> (r: &[u64]) {
        self.words
    }

    fn as_bytes(&self) -> (r: &[u8]) {
        words_as_bytes(committed_words(self.words, self.state.word_pos))
    }

    fn backing_bytes(&self) -> (r: &[u8]) {
        words_as_bytes(self.words)
    }
}

impl<'a> ZfpBitStreamOps for ZfpBitStreamRefMut<'a> {
    closed spec fn spec_words(&self) -> Seq<u64> {
        self.words@
    }

    closed spec fn spec_state(&self) -> BitStreamState {
        self.state
    }

    fn read_word(&mut self) -> (r: u64) {
        stream_core::read_word(&*self.words, &mut self.state)
    }

    fn read_bits(&mut self, n: u32) -> (r: u64) {
        stream_core::read_bits(&*self.words, &mut self.state, n)
    }

    fn read_bit(&mut self) -> (r: u32) {
        stream_core::read_bit(&*self.words, &mut self.state)
    }

    fn rewind(&mut self) {
        stream_core::rewind(&mut self.state)
    }

    fn seek_read(&mut self, offset: u64) {
        stream_core::seek_read(&*self.words, &mut self.state, offset)
    }

    fn read_pos(&self) -> (r: u64) {
        stream_core::read_pos(&self.state)
    }

    fn write_pos(&self) -> (r: u64) {
        stream_core::write_pos(&self.state)
    }

    fn skip(&mut self, n: usize) {
        stream_core::skip(&*self.words, &mut self.state, n)
    }

    fn align(&mut self) -> (r: u32) {
        stream_core::align(&*self.words, &mut self.state)
    }

    fn bits_written(&self) -> (r: usize) {
        stream_core::write_pos(&self.state) as usize
    }

    fn word_pos(&self) -> (r: usize) {
        self.state.word_pos
    }

    fn capacity(&self) -> (r: usize) {
        word_buffer_bytes(&*self.words)
    }

    fn size(&self) -> (r: usize) {
        self.state.word_pos * 8
    }

    fn words(&self) -> (r: &[u64]) {
        &*self.words
    }

    fn as_bytes(&self) -> (r: &[u8]) {
        words_as_bytes(committed_words(&*self.words, self.state.word_pos))
    }

    fn backing_bytes(&self) -> (r: &[u8]) {
        words_as_bytes(&*self.words)
    }
}

impl<'a> ZfpBitStreamMutOps for ZfpBitStreamRefMut<'a> {
    fn write_word(&mut self, word: u64) -> (r: u64) {
        stream_core::write_word(&mut *self.words, &mut self.state, word)
    }

    fn write_bits(&mut self, value: u64, n: u32) -> (r: u64) {
        stream_core::write_bits(&mut *self.words, &mut self.state, value, n)
    }

    fn write_bit(&mut self, bit: u32) -> (r: u32) {
        stream_core::write_bit(&mut *self.words, &mut self.state, bit)
    }

    fn seek_write(&mut self, offset: u64) {
        stream_core::seek_write(&*self.words, &mut self.state, offset)
    }

    fn pad(&mut self, n: usize) {
        stream_core::pad(&mut *self.words, &mut self.state, n)
    }

    fn flush(&mut self) -> (r: usize) {
        stream_core::flush(&mut *self.words, &mut self.state)
    }
}

} // verus!
