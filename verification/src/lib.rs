//! ZFP: compressed floating-point and integer arrays.
//!
//! The bit stream writes 64-bit words least-significant bit first, and field
//! data is read and written as little-endian bytes.

pub mod types;

pub mod bitstream;
pub mod codec;
pub mod config;
pub mod field;
pub mod field_plan;
pub mod header;
pub mod compress;
pub mod decompress;
pub mod execution;
pub mod roundtrip;
pub mod fixed_rate;
pub mod lockstep;
pub mod size_bound;

pub use bitstream::{ZfpBitStream, ZfpBitStreamMutOps, ZfpBitStreamOps, ZfpBitStreamRef, ZfpBitStreamRefMut};
pub use config::{ZfpConfig, ZfpStreamAlignment, STREAM_WORD_BITS, STREAM_WORD_BYTES};
pub use execution::ZfpExecution;
pub use field::{ZfpField, ZfpFieldMetadata, ZfpFieldMut};
pub use header::{ZfpHeader, ZfpHeaderError};
pub use types::{
    InvalidDimensionalityError, ZfpBitStreamWord, ZfpCompressionError, ZfpDecompressionError,
    ZfpDimensionality, ZfpDims, ZfpHeaderMask, ZfpMetadataError, ZfpMode, ZfpScalar, ZfpScalarType,
    ZfpStrides,
};

use vstd::prelude::*;
use compress::{compress_post, compress_pre};
use decompress::{decompress_post, decompress_pre};
use header::read_header_post;

verus! {

/// Compress a field through any writable bit stream.
pub fn compress_bitstream<S: ZfpBitStreamMutOps>(bs: &mut S, field: &ZfpField, config: &ZfpConfig) -> (r: Result<
    usize,
    ZfpCompressionError,
>)
    requires
        compress_pre(old(bs).spec_state(), old(bs).spec_words(), *field, *config),
    ensures
        compress_post(
            old(bs).spec_state(),
            old(bs).spec_words(),
            final(bs).spec_state(),
            final(bs).spec_words(),
            *field,
            *config,
            r,
        ),
{
    compress::compress(bs, field, config)
}

/// Decompress a field through any readable bit stream.
pub fn decompress_bitstream<S: ZfpBitStreamOps>(bs: &mut S, field: &mut ZfpFieldMut, config: &ZfpConfig) -> (r: Result<
    usize,
    ZfpDecompressionError,
>)
    requires
        decompress_pre(
            old(bs).spec_state(),
            old(field).spec_data().len() as int,
            old(field).spec_scalar_type(),
            old(field).spec_dims(),
            old(field).spec_strides(),
        ),
    ensures
        final(field).spec_scalar_type() == old(field).spec_scalar_type(),
        final(field).spec_dims() == old(field).spec_dims(),
        final(field).spec_strides() == old(field).spec_strides(),
        decompress_post(
            old(bs).spec_state(),
            old(bs).spec_words(),
            final(bs).spec_state(),
            final(bs).spec_words(),
            old(field).spec_data(),
            old(field).spec_scalar_type(),
            old(field).spec_dims(),
            old(field).spec_strides(),
            final(field).spec_data(),
            *config,
            r,
        ),
{
    decompress::decompress(bs, field, config)
}

/// Read the header sections that `mask` selects through any readable bit
/// stream.
pub fn read_header_bitstream<S: ZfpBitStreamOps>(bs: &mut S, mask: ZfpHeaderMask) -> (r: Result<ZfpHeader, ZfpHeaderError>)
    requires
        old(bs).spec_state().wf(),
    ensures
        read_header_post(
            old(bs).spec_state(),
            old(bs).spec_words(),
            final(bs).spec_state(),
            final(bs).spec_words(),
            mask,
            r,
        ),
{
    header::read_header_bs(bs, mask)
}

} // verus!
