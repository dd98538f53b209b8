//! Decompression of a whole field: its blocks decoded one after the other
//! from a bit stream and written into the field, then the stream aligned to
//! a word boundary.

use vstd::prelude::*;
use crate::bitstream::ops::ZfpBitStreamOps;
use crate::codec::gather::{lemma_scattered_len, plan_wf, scatter_block, scattered, span_bytes};
use crate::codec::order::pow4n;
use crate::codec::typed::{block_decode, decode_block, BlockParams};
use crate::compress::{block_params, params_of};
use crate::config::ZfpConfig;
use crate::field::ZfpFieldMut;
use crate::field_plan::{plan_field, plan_fits, spec_plan, FieldPlan, PlanError};
use crate::bitstream::stream_core::{offset_modulus, reads_within, BitStreamState};
use crate::types::{ZfpDecompressionError, ZfpScalarType};

verus! {

/// The field bytes after decoding the first `k` blocks of the grid `p` from
/// the bits `src`, in block order, and the number of bits read.
pub open spec fn field_decode(data: Seq<u8>, p: FieldPlan, c: BlockParams, src: spec_fn(int) -> bool, k: int) -> (
    Seq<u8>,
    int,
)
    decreases k,
{
    if k <= 0 {
        (data, 0)
    } else {
        let prev = field_decode(data, p, c, src, k - 1);
        let dec = block_decode(p.scalar_type, |j: int| src(prev.1 + j), p.dims_enum.count(), c);
        (scattered(prev.0, p, k - 1, dec.0, pow4n(p.dims_enum.count())), prev.1 + dec.1)
    }
}

/// Reversible decoding of a block of integers reads a nonnegative number of
/// bits, whatever the bits.
proof fn lemma_rev_int_decode_nonneg(src: spec_fn(int) -> bool, d: nat, maxbits: u32)
    requires
        1 <= d <= 4,
    ensures
        crate::codec::block::rev_int_decode_i32(src, d, maxbits).1 >= 0,
        crate::codec::block::rev_int_decode_i64(src, d, maxbits).1 >= 0,
{
    let z = Seq::new(pow4n(d) as nat, |j: int| 0u64);
    let p32 = crate::codec::block::bits_value(src, 0, 5) + 1;
    let p64 = crate::codec::block::bits_value(src, 0, 6) + 1;
    crate::codec::embedded::lemma_emb_len_bound(z, 32,
        crate::codec::block::coded_budget(crate::codec::block::sat_sub(maxbits, 5), p32 as u32, pow4n(d)), p32 as int,
        |j: int| src(5 + j));
    crate::codec::embedded::lemma_emb_len_bound(z, 64,
        crate::codec::block::coded_budget(crate::codec::block::sat_sub(maxbits, 6), p64 as u32, pow4n(d)), p64 as int,
        |j: int| src(6 + j));
}

/// Decoding a block reads a nonnegative number of bits, whatever the bits.
proof fn lemma_block_decode_nonneg(ty: ZfpScalarType, src: spec_fn(int) -> bool, d: nat, c: BlockParams)
    requires
        1 <= d <= 4,
    ensures
        block_decode(ty, src, d, c).1 >= 0,
{
    lemma_rev_int_decode_nonneg(src, d, u32::MAX);
    lemma_rev_int_decode_nonneg(|j: int| src(2 + j), d, crate::codec::block::sat_sub(u32::MAX, 2));
    lemma_rev_int_decode_nonneg(|j: int| src(10 + j), d, crate::codec::block::sat_sub(u32::MAX, 10));
    lemma_rev_int_decode_nonneg(|j: int| src(13 + j), d, crate::codec::block::sat_sub(u32::MAX, 13));
}

/// The bits read for the first `k` blocks are no more than for the first `n`.
pub proof fn lemma_field_decode_mono(data: Seq<u8>, p: FieldPlan, c: BlockParams, src: spec_fn(int) -> bool, k: int, n: int)
    requires
        0 <= k <= n,
        1 <= p.dims_enum.count() <= 4,
    ensures
        0 <= field_decode(data, p, c, src, k).1 <= field_decode(data, p, c, src, n).1,
    decreases n,
{
    if n > 0 {
        let prev = field_decode(data, p, c, src, n - 1);
        lemma_block_decode_nonneg(p.scalar_type, |j: int| src(prev.1 + j), p.dims_enum.count(), c);
        if k < n {
            lemma_field_decode_mono(data, p, c, src, k, n - 1);
        } else {
            lemma_field_decode_mono(data, p, c, src, n - 1, n - 1);
        }
    }
}

fn zero_block(n: usize) -> (r: Vec<u64>)
    ensures
        r@.len() == n,
{
    let mut v: Vec<u64> = Vec::new();
    let mut k: usize = 0;
    while k < n
        invariant
            k <= n,
            v@.len() == k,
        decreases n - k,
    {
        v.push(0);
        k = k + 1;
    }
    v
}

/// Decode the blocks of a grid one after the other into `data`.
pub fn decompress_grid<S: ZfpBitStreamOps>(bs: &mut S, data: &mut [u8], p: &FieldPlan, c: &BlockParams)
    requires
        old(bs).spec_state().wf(),
        plan_wf(*p),
        span_bytes(*p) <= old(data)@.len(),
    ensures
        ({
            let src = |j: int| old(bs).spec_state().pending(old(bs).spec_words(), j);
            let dec = field_decode(old(data)@, *p, *c, src, p.num_blocks as int);
            &&& final(data)@ == dec.0
            &&& forall|j: int| 0 <= j ==> #[trigger] final(bs).spec_state().pending(final(bs).spec_words(), j) == src(dec.1 + j)
            &&& reads_within(old(bs).spec_words(), old(bs).spec_state(), dec.1) ==> final(bs).spec_state().read_offset()
                == old(bs).spec_state().read_offset() + dec.1
        }),
        final(bs).spec_state().wf(),
        final(bs).spec_words() == old(bs).spec_words(),
{
    let ghost s0 = bs.spec_state();
    let d = p.dim_count();
    let n: usize = if d == 1 { 4 } else if d == 2 { 16 } else if d == 3 { 64 } else { 256 };
    let ghost src = |j: int| old(bs).spec_state().pending(old(bs).spec_words(), j);
    let ghost d0 = data@;
    let ghost w = bs.spec_words();
    let mut b: usize = 0;
    while b < p.num_blocks
        invariant
            b <= p.num_blocks,
            d == p.dims_enum.count(),
            n == pow4n(d as nat),
            plan_wf(*p),
            span_bytes(*p) <= data@.len(),
            data@.len() == d0.len(),
            bs.spec_state().wf(),
            bs.spec_words() == w,
            data@ == field_decode(d0, *p, *c, src, b as int).0,
            forall|j: int| 0 <= j ==> #[trigger] bs.spec_state().pending(w, j) == src(field_decode(d0, *p, *c, src, b as int).1 + j),
            src == (|j: int| s0.pending(w, j)),
            reads_within(w, s0, field_decode(d0, *p, *c, src, p.num_blocks as int).1) ==> bs.spec_state().read_offset()
                == s0.read_offset() + field_decode(d0, *p, *c, src, b as int).1,
        decreases p.num_blocks - b,
    {
        let ghost pos = field_decode(d0, *p, *c, src, b as int).1;
        let ghost s = |j: int| src(pos + j);
        let mut out = zero_block(n);
        let ghost sb = bs.spec_state();
        decode_block(bs, p.scalar_type, out.as_mut_slice(), d, c, Ghost(s));
        proof {
            lemma_scattered_len(data@, *p, b as int, out@, out@.len() as int);
            if reads_within(w, s0, field_decode(d0, *p, *c, src, p.num_blocks as int).1) {
                lemma_field_decode_mono(d0, *p, *c, src, b + 1, p.num_blocks as int);
                lemma_field_decode_mono(d0, *p, *c, src, b as int, b + 1);
                assert(reads_within(w, sb, block_decode(p.scalar_type, s, d as nat, *c).1));
            }
        }
        scatter_block(data, p, b, out.as_slice());
        proof {
            assert forall|j: int| 0 <= j implies #[trigger] bs.spec_state().pending(w, j) == src(field_decode(d0, *p, *c, src, b + 1).1 + j) by {
                let dec = block_decode(p.scalar_type, s, d as nat, *c);
                assert(bs.spec_state().pending(w, j) == s(dec.1 + j));
            }
        }
        b = b + 1;
    }
}

/// The decompression error for a field that cannot be planned.
pub open spec fn decompression_error(e: PlanError) -> ZfpDecompressionError {
    match e {
        PlanError::NoData => ZfpDecompressionError::NoData,
        PlanError::InvalidField { required, actual } => ZfpDecompressionError::InvalidField { required, actual },
        PlanError::MisalignedData { align } => ZfpDecompressionError::MisalignedData { align },
    }
}

impl From<PlanError> for ZfpDecompressionError {
    fn from(e: PlanError) -> (r: Self) {
        match e {
            PlanError::NoData => ZfpDecompressionError::NoData,
            PlanError::InvalidField { required, actual } => ZfpDecompressionError::InvalidField { required, actual },
            PlanError::MisalignedData { align } => ZfpDecompressionError::MisalignedData { align },
        }
    }
}

impl vstd::std_specs::convert::FromSpecImpl<PlanError> for ZfpDecompressionError {
    open spec fn obeys_from_spec() -> bool {
        true
    }

    open spec fn from_spec(e: PlanError) -> ZfpDecompressionError {
        decompression_error(e)
    }
}

/// What decompressing needs of a stream with cursor `s` and of a field of
/// `len` bytes: a well-formed cursor, and sizes that fit the machine.
pub open spec fn decompress_pre(s: BitStreamState, len: int, ty: ZfpScalarType, dims: [usize; 4], strides: [isize; 4]) -> bool {
    &&& s.wf()
    &&& len <= isize::MAX
    &&& plan_fits(len, ty, dims, strides)
}

/// What decompressing into a field (bytes `data0` before, `data1` after) does
/// and returns: the error of a field that cannot be planned, with stream and
/// field unchanged; otherwise the field holds the blocks decoded from the
/// stream's pending bits, and the stream's byte size after aligning to a word.
pub open spec fn decompress_post(
    s0: BitStreamState,
    w0: Seq<u64>,
    s1: BitStreamState,
    w1: Seq<u64>,
    data0: Seq<u8>,
    ty: ZfpScalarType,
    dims: [usize; 4],
    strides: [isize; 4],
    data1: Seq<u8>,
    config: ZfpConfig,
    r: Result<usize, ZfpDecompressionError>,
) -> bool {
    &&& w1 == w0
    &&& match spec_plan(data0.len() as int, ty, dims, strides) {
        Err(e) => {
            &&& r == Err::<usize, ZfpDecompressionError>(decompression_error(e))
            &&& s1 == s0
            &&& data1 == data0
        },
        Ok(p) => {
            let src = |j: int| s0.pending(w0, j);
            let dec = field_decode(data0, p, params_of(config), src, p.num_blocks as int);
            &&& data1 == dec.0
            &&& s1.wf()
            &&& r == Ok::<usize, ZfpDecompressionError>(((s1.word_pos * 8) % (usize::MAX + 1)) as usize)
            &&& reads_within(w0, s0, dec.1) ==> {
                &&& s1.bits == 0
                &&& s1.word_pos * 64 - 64 < s0.read_offset() + dec.1 <= s1.word_pos * 64
            }
        },
    }
}

/// Decompress the bit stream into a field: decode its blocks one after the
/// other into the field's bytes, align the stream to the next word, and
/// return the stream's byte size. A field without bytes, or with fewer bytes
/// than its layout spans, is refused and stream and field are left as they
/// are.
pub fn decompress<S: ZfpBitStreamOps>(bs: &mut S, field: &mut ZfpFieldMut, config: &ZfpConfig) -> (r: Result<
    usize,
    ZfpDecompressionError,
>)
    requires
        decompress_pre(
            old(bs).spec_state(),
            old(field).spec_data().len() as int,
            old(field).spec_scalar_type(),
            old(field).spec_dims(),
            old(field).spec_strides(),
        ),
    ensures
        final(field).spec_scalar_type() == old(field).spec_scalar_type(),
        final(field).spec_dims() == old(field).spec_dims(),
        final(field).spec_strides() == old(field).spec_strides(),
        decompress_post(
            old(bs).spec_state(),
            old(bs).spec_words(),
            final(bs).spec_state(),
            final(bs).spec_words(),
            old(field).spec_data(),
            old(field).spec_scalar_type(),
            old(field).spec_dims(),
            old(field).spec_strides(),
            final(field).spec_data(),
            *config,
            r,
        ),
{
    let dims = field.dims();
    let strides = field.strides();
    let ty = field.scalar_type();
    let plan = plan_field(ty, &dims, &strides, field.data());
    match plan {
        Err(e) => Err(ZfpDecompressionError::from(e)),
        Ok(p) => {
            let c = block_params(config);
            let data = field.data_mut();
            decompress_grid(bs, data, &p, &c);
            let ghost sg = bs.spec_state();
            bs.align();
            proof {
                let w = bs.spec_words();
                let sa = bs.spec_state();
                if sg.bits != 0 && reads_within(w, sg, 0) {
                    let o = sg.word_pos * 64;
                    assert(0 <= o < offset_modulus());
                    vstd::arithmetic::div_mod::lemma_small_mod(o as nat, offset_modulus() as nat);
                    vstd::arithmetic::div_mod::lemma_mod_multiples_basic(sg.word_pos as int, 64);
                    vstd::arithmetic::div_mod::lemma_div_multiples_vanish(sg.word_pos as int, 64);
                }
            }
            Ok(bs.word_pos().wrapping_mul(8))
        },
    }
}

} // verus!
