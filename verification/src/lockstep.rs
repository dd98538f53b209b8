//! Decoding reads exactly the bits that coding wrote, in every mode, lossy
//! ones included: a decoder that walks a stream of blocks stays in step with
//! the coder, block by block, and decompressing a compressed field reads the
//! whole of its code.

use vstd::prelude::*;
use crate::bitstream::stream_core::{low_bits, offset_modulus, reads_within, stream_bit, word_bit, zero_bits, BitStreamState};
use crate::codec::block::{
    bits_value, coded_budget, lemma_read_value, lossy_int_bits_i32, lossy_int_bits_i64, lossy_int_decode_i32,
    lossy_int_decode_i64, pad_bits, sat_sub,
};
use crate::codec::embedded::{emb_encode, lemma_emb_roundtrip, plane_bit};
use crate::codec::float::{
    cast_block_f32, cast_block_f64, float_precision, lemma_block_emax_range_f32, lemma_block_emax_range_f64,
    lossy_float_bits_f32, lossy_float_bits_f64, lossy_float_decode_f32, lossy_float_decode_f64, patterns_f64,
    spec_block_emax_f32, spec_block_emax_f64,
};
use crate::codec::order::{fwd_order_spec_i32, fwd_order_spec_i64, pow4n};
use crate::codec::transform::{xform_spec_i32, xform_spec_i64, LiftKind};
use crate::codec::typed::{block_code, block_decode, ints_i32, ints_i64, raw_fits, BlockParams};
use crate::compress::{
    compress_post, compress_pre, field_code, flush_pad, lemma_field_code_grows, lemma_gathered_fits, params_of, spec_compressed,
};
use crate::config::ZfpConfig;
use crate::decompress::{decompress_post, field_decode};
use crate::field::ZfpField;
use crate::codec::gather::{gathered, plan_wf, span_bytes};
use crate::field_plan::{lemma_plan_wf, spec_plan, FieldPlan};
use crate::roundtrip::{lemma_block_roundtrip, lemma_field_code_prefix};
use crate::types::{ZfpCompressionError, ZfpDecompressionError, ZfpScalarType, ZFP_MIN_EXP};

verus! {

/// Lossy decoding of a block of `i32` reads exactly the bits that lossy
/// coding of it wrote.
proof fn lemma_lossy_int_in_step_i32(x: Seq<i32>, d: nat, minbits: u32, maxbits: u32, maxprec: u32, src: spec_fn(int) -> bool)
    requires
        1 <= d <= 4,
        x.len() == pow4n(d),
        forall|t: int| 0 <= t < lossy_int_bits_i32(x, d, minbits, maxbits, maxprec).len() ==> src(t)
            == #[trigger] lossy_int_bits_i32(x, d, minbits, maxbits, maxprec)[t],
    ensures
        lossy_int_decode_i32(src, d, minbits, maxbits, maxprec).1 == lossy_int_bits_i32(x, d, minbits, maxbits, maxprec).len(),
{
    let u = fwd_order_spec_i32(xform_spec_i32(x, d, LiftKind::Forward), d);
    let b = coded_budget(maxbits, maxprec, pow4n(d));
    let e = emb_encode(u, 32, b, maxprec as int);
    let all = lossy_int_bits_i32(x, d, minbits, maxbits, maxprec);
    assert(all == pad_bits(e, minbits as int));
    assert forall|t: int| 0 <= t < e.len() implies src(t) == #[trigger] e[t] by {
        assert(src(t) == all[t]);
    }
    lemma_emb_roundtrip(u, 32, b, maxprec as int, src);
}

/// Lossy decoding of a block of `i64` reads exactly the bits that lossy
/// coding of it wrote.
proof fn lemma_lossy_int_in_step_i64(x: Seq<i64>, d: nat, minbits: u32, maxbits: u32, maxprec: u32, src: spec_fn(int) -> bool)
    requires
        1 <= d <= 4,
        x.len() == pow4n(d),
        forall|t: int| 0 <= t < lossy_int_bits_i64(x, d, minbits, maxbits, maxprec).len() ==> src(t)
            == #[trigger] lossy_int_bits_i64(x, d, minbits, maxbits, maxprec)[t],
    ensures
        lossy_int_decode_i64(src, d, minbits, maxbits, maxprec).1 == lossy_int_bits_i64(x, d, minbits, maxbits, maxprec).len(),
{
    let u = fwd_order_spec_i64(xform_spec_i64(x, d, LiftKind::Forward), d);
    let b = coded_budget(maxbits, maxprec, pow4n(d));
    let e = emb_encode(u, 64, b, maxprec as int);
    let all = lossy_int_bits_i64(x, d, minbits, maxbits, maxprec);
    assert(all == pad_bits(e, minbits as int));
    assert forall|t: int| 0 <= t < e.len() implies src(t) == #[trigger] e[t] by {
        assert(src(t) == all[t]);
    }
    lemma_emb_roundtrip(u, 64, b, maxprec as int, src);
}

/// The exponent header `2e + 1` of a lossy floating-point block: its lowest
/// bit is one, and the bits above it are those of `e`.
proof fn lemma_exp_header_bit(e: u64, v: u64, j: u64, j1: u64)
    by (bit_vector)
    requires
        e < 2048,
        v == 2 * e + 1,
        j < 11,
        j1 == j + 1,
    ensures
        (v >> 0u64) & 1u64 == 1u64,
        (v >> j1) & 1u64 == (e >> j) & 1u64,
        e >> 11u64 == 0u64,
        e < 256 ==> e >> 8u64 == 0u64,
{
}

/// Lossy decoding of a block of single-precision patterns reads exactly the
/// bits that lossy coding of it wrote.
proof fn lemma_lossy_float_in_step_f32(
    raw: Seq<u64>,
    d: nat,
    minbits: u32,
    maxbits: u32,
    maxprec: u32,
    minexp: i32,
    src: spec_fn(int) -> bool,
)
    requires
        1 <= d <= 4,
        raw.len() == pow4n(d),
        raw_fits(ZfpScalarType::Float, raw),
        forall|t: int| 0 <= t < lossy_float_bits_f32(raw, d, minbits, maxbits, maxprec, minexp).len() ==> src(t)
            == #[trigger] lossy_float_bits_f32(raw, d, minbits, maxbits, maxprec, minexp)[t],
    ensures
        lossy_float_decode_f32(src, d, minbits, maxbits, maxprec, minexp).1 == lossy_float_bits_f32(
            raw,
            d,
            minbits,
            maxbits,
            maxprec,
            minexp,
        ).len(),
{
    let all = lossy_float_bits_f32(raw, d, minbits, maxbits, maxprec, minexp);
    let emax = spec_block_emax_f32(raw);
    lemma_block_emax_range_f32(raw);
    let prec = float_precision(emax, maxprec, minexp, d);
    let e = if prec != 0 {
        emax + 127
    } else {
        0
    };
    if e != 0 {
        let v = (2 * e + 1) as u64;
        let ib = cast_block_f32(raw, emax);
        let ints = lossy_int_bits_i32(ib, d, sat_sub(minbits, 9), sat_sub(maxbits, 9), prec);
        assert(all == low_bits(v, 9) + ints);
        lemma_exp_header_bit(e as u64, v, 0, 1);
        assert(src(0) == all[0]);
        assert(src(0) == word_bit(v, 0));
        let s1 = |j: int| src(1 + j);
        assert forall|j: int| 0 <= j < 8 implies #[trigger] s1(0 + j) == plane_bit(e as u64, j) by {
            assert(src(1 + j) == all[1 + j]);
            lemma_exp_header_bit(e as u64, v, j as u64, (j + 1) as u64);
        }
        lemma_read_value(s1, 0, e as u64, 8);
        assert(bits_value(s1, 0, 8) - 127 == emax);
        let s9 = |j: int| src(9 + j);
        assert forall|t: int| 0 <= t < ints.len() implies s9(t) == #[trigger] ints[t] by {
            assert(src(9 + t) == all[9 + t]);
        }
        lemma_lossy_int_in_step_i32(ib, d, sat_sub(minbits, 9), sat_sub(maxbits, 9), prec, s9);
    } else {
        assert(src(0) == all[0]);
    }
}

/// Lossy decoding of a block of double-precision patterns reads exactly the
/// bits that lossy coding of it wrote.
proof fn lemma_lossy_float_in_step_f64(
    raw: Seq<u64>,
    d: nat,
    minbits: u32,
    maxbits: u32,
    maxprec: u32,
    minexp: i32,
    src: spec_fn(int) -> bool,
)
    requires
        1 <= d <= 4,
        raw.len() == pow4n(d),
        forall|t: int| 0 <= t < lossy_float_bits_f64(raw, d, minbits, maxbits, maxprec, minexp).len() ==> src(t)
            == #[trigger] lossy_float_bits_f64(raw, d, minbits, maxbits, maxprec, minexp)[t],
    ensures
        lossy_float_decode_f64(src, d, minbits, maxbits, maxprec, minexp).1 == lossy_float_bits_f64(
            raw,
            d,
            minbits,
            maxbits,
            maxprec,
            minexp,
        ).len(),
{
    let all = lossy_float_bits_f64(raw, d, minbits, maxbits, maxprec, minexp);
    let emax = spec_block_emax_f64(raw);
    assert(patterns_f64(raw));
    lemma_block_emax_range_f64(raw);
    let prec = float_precision(emax, maxprec, minexp, d);
    let e = if prec != 0 {
        emax + 1023
    } else {
        0
    };
    if e != 0 {
        let v = (2 * e + 1) as u64;
        let ib = cast_block_f64(raw, emax);
        let ints = lossy_int_bits_i64(ib, d, sat_sub(minbits, 12), sat_sub(maxbits, 12), prec);
        assert(all == low_bits(v, 12) + ints);
        lemma_exp_header_bit(e as u64, v, 0, 1);
        assert(src(0) == all[0]);
        assert(src(0) == word_bit(v, 0));
        let s1 = |j: int| src(1 + j);
        assert forall|j: int| 0 <= j < 11 implies #[trigger] s1(0 + j) == plane_bit(e as u64, j) by {
            assert(src(1 + j) == all[1 + j]);
            lemma_exp_header_bit(e as u64, v, j as u64, (j + 1) as u64);
        }
        lemma_read_value(s1, 0, e as u64, 11);
        assert(bits_value(s1, 0, 11) - 1023 == emax);
        let s12 = |j: int| src(12 + j);
        assert forall|t: int| 0 <= t < ints.len() implies s12(t) == #[trigger] ints[t] by {
            assert(src(12 + t) == all[12 + t]);
        }
        lemma_lossy_int_in_step_i64(ib, d, sat_sub(minbits, 12), sat_sub(maxbits, 12), prec, s12);
    } else {
        assert(src(0) == all[0]);
    }
}

/// In every mode, decoding a block from the bits that coding it wrote reads
/// exactly those bits.
pub proof fn lemma_block_in_step(ty: ZfpScalarType, raw: Seq<u64>, d: nat, c: BlockParams, src: spec_fn(int) -> bool)
    requires
        1 <= d <= 4,
        raw.len() == pow4n(d),
        raw_fits(ty, raw),
        forall|t: int| 0 <= t < block_code(ty, raw, d, c).len() ==> src(t) == #[trigger] block_code(ty, raw, d, c)[t],
    ensures
        block_decode(ty, src, d, c).1 == block_code(ty, raw, d, c).len(),
{
    if c.min_exp < ZFP_MIN_EXP {
        lemma_block_roundtrip(ty, raw, d, c, src);
    } else {
        match ty {
            ZfpScalarType::Int32 => {
                let code = lossy_int_bits_i32(ints_i32(raw), d, c.min_bits, c.max_bits, c.max_prec);
                assert forall|t: int| 0 <= t < code.len() implies src(t) == #[trigger] code[t] by {
                    assert(src(t) == block_code(ty, raw, d, c)[t]);
                }
                lemma_lossy_int_in_step_i32(ints_i32(raw), d, c.min_bits, c.max_bits, c.max_prec, src);
            },
            ZfpScalarType::Int64 => {
                let code = lossy_int_bits_i64(ints_i64(raw), d, c.min_bits, c.max_bits, c.max_prec);
                assert forall|t: int| 0 <= t < code.len() implies src(t) == #[trigger] code[t] by {
                    assert(src(t) == block_code(ty, raw, d, c)[t]);
                }
                lemma_lossy_int_in_step_i64(ints_i64(raw), d, c.min_bits, c.max_bits, c.max_prec, src);
            },
            ZfpScalarType::Float => {
                let code = lossy_float_bits_f32(raw, d, c.min_bits, c.max_bits, c.max_prec, c.min_exp);
                assert forall|t: int| 0 <= t < code.len() implies src(t) == #[trigger] code[t] by {
                    assert(src(t) == block_code(ty, raw, d, c)[t]);
                }
                lemma_lossy_float_in_step_f32(raw, d, c.min_bits, c.max_bits, c.max_prec, c.min_exp, src);
            },
            ZfpScalarType::Double => {
                let code = lossy_float_bits_f64(raw, d, c.min_bits, c.max_bits, c.max_prec, c.min_exp);
                assert forall|t: int| 0 <= t < code.len() implies src(t) == #[trigger] code[t] by {
                    assert(src(t) == block_code(ty, raw, d, c)[t]);
                }
                lemma_lossy_float_in_step_f64(raw, d, c.min_bits, c.max_bits, c.max_prec, c.min_exp, src);
            },
        }
    }
}


proof fn lemma_field_in_step_upto(
    data: Seq<u8>,
    t0: Seq<u8>,
    p: FieldPlan,
    c: BlockParams,
    src: spec_fn(int) -> bool,
    k: int,
)
    requires
        plan_wf(p),
        span_bytes(p) <= data.len(),
        0 <= k <= p.num_blocks,
        forall|j: int| 0 <= j < field_code(data, p, c, p.num_blocks as int).len() ==> src(j) == #[trigger] field_code(
            data,
            p,
            c,
            p.num_blocks as int,
        )[j],
    ensures
        field_decode(t0, p, c, src, k).1 == field_code(data, p, c, k).len(),
    decreases k,
{
    if k > 0 {
        lemma_field_in_step_upto(data, t0, p, c, src, k - 1);
        let d = p.dims_enum.count();
        let n = p.num_blocks as int;
        let pos = field_decode(t0, p, c, src, k - 1).1;
        let raw = gathered(data, p, k - 1);
        let code = block_code(p.scalar_type, raw, d, c);
        assert(field_code(data, p, c, k) == field_code(data, p, c, k - 1) + code);
        lemma_field_code_grows(data, p, c, k, n);
        let s = |j: int| src(pos + j);
        assert forall|t: int| 0 <= t < code.len() implies s(t) == #[trigger] code[t] by {
            lemma_field_code_prefix(data, p, c, k, n, pos + t);
            assert(field_code(data, p, c, k)[pos + t] == code[t]);
        }
        lemma_gathered_fits(data, p, k - 1);
        assert(1 <= d <= 4);
        lemma_block_in_step(p.scalar_type, raw, d, c, s);
    }
}

/// In every mode, decoding the blocks of a field, over any bytes, from the
/// bits that coding them wrote reads exactly those bits.
pub proof fn lemma_field_in_step(data: Seq<u8>, target: Seq<u8>, p: FieldPlan, c: BlockParams, src: spec_fn(int) -> bool)
    requires
        plan_wf(p),
        span_bytes(p) <= data.len(),
        forall|j: int| 0 <= j < field_code(data, p, c, p.num_blocks as int).len() ==> src(j) == #[trigger] field_code(
            data,
            p,
            c,
            p.num_blocks as int,
        )[j],
    ensures
        field_decode(target, p, c, src, p.num_blocks as int).1 == field_code(data, p, c, p.num_blocks as int).len(),
{
    lemma_field_in_step_upto(data, target, p, c, src, p.num_blocks as int);
}

/// In every mode, lossy ones included: compressing a field into a fresh
/// stream, rewinding, and decompressing into bytes of the same length and
/// layout reads exactly the bits that were written, and both calls return the
/// same byte size.
pub proof fn lemma_compress_decompress_in_step(
    w0: Seq<u64>,
    s1: BitStreamState,
    w1: Seq<u64>,
    field: ZfpField,
    config: ZfpConfig,
    r: Result<usize, ZfpCompressionError>,
    target: Seq<u8>,
    s3: BitStreamState,
    w3: Seq<u64>,
    out: Seq<u8>,
    r2: Result<usize, ZfpDecompressionError>,
)
    requires
        compress_pre(BitStreamState::spec_new(), w0, field, config),
        compress_post(BitStreamState::spec_new(), w0, s1, w1, field, config, r),
        r is Ok,
        w0.len() * 64 < offset_modulus(),
        target.len() == field.spec_data().len(),
        decompress_post(
            BitStreamState::spec_new(),
            w1,
            s3,
            w3,
            target,
            field.spec_scalar_type(),
            field.spec_dims(),
            field.spec_strides(),
            out,
            config,
            r2,
        ),
    ensures
        r2 is Ok,
        r2->Ok_0 == r->Ok_0,
        s3.word_pos == s1.word_pos,
{
    let data = field.spec_data();
    let len = data.len() as int;
    let ty = field.spec_scalar_type();
    let dims = field.spec_dims();
    let strides = field.spec_strides();
    let c = params_of(config);
    lemma_plan_wf(len, ty, dims, strides);
    let p = spec_plan(len, ty, dims, strides)->Ok_0;
    let code = field_code(data, p, c, p.num_blocks as int);
    let s0 = BitStreamState::spec_new();
    assert(s0.written(w0) =~= Seq::<bool>::empty());
    assert(spec_compressed(field, config) == code);
    assert(s1.written(w1) == Seq::<bool>::empty() + code + zero_bits(flush_pad(code.len() as int)));
    let src = |j: int| s0.pending(w1, j);
    assert(s1.written(w1).len() == s1.word_pos * 64);
    assert forall|j: int| 0 <= j < code.len() implies src(j) == #[trigger] code[j] by {
        assert(s1.written(w1)[j] == code[j]);
        assert(j < s1.word_pos * 64);
        assert(s1.written(w1)[j] == stream_bit(w1, j));
    }
    lemma_field_in_step(data, target, p, c, src);
    let dec = field_decode(target, p, c, src, p.num_blocks as int);
    assert(dec.1 == code.len());
    assert(reads_within(w1, s0, dec.1));
    assert(s3.word_pos * 64 - 64 < dec.1 <= s3.word_pos * 64);
    assert(s3.word_pos == s1.word_pos);
    vstd::arithmetic::div_mod::lemma_small_mod((s3.word_pos * 8) as nat, (usize::MAX + 1) as nat);
}

} // verus!
