//! Reversible coding of a whole field is lossless: decoding the code of a
//! field gives every value of the field back the bytes it had.

use vstd::prelude::*;
use crate::codec::gather::{
    gathered, inside, le_bytes, le_bytes_bound, lemma_scattered_len, lemma_value_index_bounds, plan_wf, pow256,
    put_le, scattered, span_bytes, value_index,
};
use crate::codec::order::pow4n;
use crate::codec::typed::{block_code, block_decode, raws_i32, raws_i64, ints_i32, ints_i64, BlockParams};
use crate::compress::field_code;
use crate::decompress::field_decode;
use crate::bitstream::stream_core::{stream_bit, zero_bits, BitStreamState};
use crate::compress::{compress_post, compress_pre, flush_pad, params_of, spec_compressed};
use crate::config::ZfpConfig;
use crate::decompress::decompress_post;
use crate::field::ZfpField;
use crate::field_plan::{lemma_plan_wf, spec_plan, FieldPlan};
use crate::types::{ZfpCompressionError, ZfpDecompressionError};
use crate::types::{ZfpScalarType, ZFP_MIN_EXP};

verus! {

/// Byte `j` of the little-endian value of `n` bytes from `off` is the byte at `off + j`.
proof fn lemma_le_bytes_digit(data: Seq<u8>, off: int, n: nat, j: nat)
    requires
        j < n,
    ensures
        (le_bytes(data, off, n) / pow256(j)) % 256 == data[off + j],
    decreases j,
{
    let rest = le_bytes(data, off + 1, (n - 1) as nat);
    le_bytes_bound(data, off + 1, (n - 1) as nat);
    let l = le_bytes(data, off, n);
    assert(l == data[off] + 256 * rest);
    vstd::arithmetic::div_mod::lemma_fundamental_div_mod_converse(l, 256, rest, data[off] as int);
    if j == 0 {
        assert(pow256(0) == 1);
    } else {
        lemma_le_bytes_digit(data, off + 1, (n - 1) as nat, (j - 1) as nat);
        crate::codec::gather::lemma_pow256_pos((j - 1) as nat);
        vstd::arithmetic::div_mod::lemma_div_denominator(l, 256, pow256((j - 1) as nat));
        assert(pow256(j) == 256 * pow256((j - 1) as nat));
    }
}

/// The bytes of a value of `D`, or the bytes that `T` already held there
/// when they are `D`'s.
proof fn lemma_put_own_value(t: Seq<u8>, d: Seq<u8>, off: int, n: nat, x: int)
    requires
        t.len() == d.len(),
        0 <= off,
        off + n <= d.len(),
        0 <= x < t.len(),
    ensures
        put_le(t, off, n, le_bytes(d, off, n))[x] == (if off <= x < off + n {
            d[x]
        } else {
            t[x]
        }),
{
    if off <= x < off + n {
        lemma_le_bytes_digit(d, off, n, (x - off) as nat);
    }
}

/// The byte range of the value that position `q` of block `b` stands for.
pub open spec fn value_range(p: FieldPlan, b: int, q: int, x: int) -> bool {
    let size = p.scalar_type.spec_size();
    value_index(p, b, q) * size <= x < value_index(p, b, q) * size + size
}

/// Writing the values that block `b` gathered from `D` back over `T` gives
/// every position of the block inside the field `D`'s bytes, and keeps every
/// byte that already was `D`'s.
proof fn lemma_scatter_own_values(t: Seq<u8>, d: Seq<u8>, p: FieldPlan, b: int, k: int, x: int)
    requires
        plan_wf(p),
        0 <= b < p.num_blocks,
        span_bytes(p) <= d.len(),
        t.len() == d.len(),
        0 <= k <= pow4n(p.dims_enum.count()),
        0 <= x < d.len(),
    ensures
        scattered(t, p, b, gathered(d, p, b), k).len() == d.len(),
        t[x] == d[x] ==> scattered(t, p, b, gathered(d, p, b), k)[x] == d[x],
        forall|q: int| 0 <= q < k && inside(p, b, q) && value_range(p, b, q, x) ==> scattered(t, p, b, gathered(d, p, b), k)[x] == d[x],
    decreases k,
{
    let g = gathered(d, p, b);
    lemma_scattered_len(t, p, b, g, k);
    if k > 0 {
        lemma_scatter_own_values(t, d, p, b, k - 1, x);
        let prev = scattered(t, p, b, g, k - 1);
        lemma_scattered_len(t, p, b, g, k - 1);
        if inside(p, b, k - 1) {
            let size = p.scalar_type.spec_size();
            let off = value_index(p, b, k - 1) * size;
            lemma_value_index_bounds(p, b, k - 1);
            assert(off + size <= span_bytes(p)) by (nonlinear_arith)
                requires
                    0 <= value_index(p, b, k - 1) <= crate::field::spec_index_span(p.dims, p.strides).1 - p.imin,
                    off == value_index(p, b, k - 1) * size,
                    span_bytes(p) == (crate::field::spec_index_span(p.dims, p.strides).1 - p.imin + 1) * size,
                    size >= 0,
            ;
            assert(0 <= off) by (nonlinear_arith)
                requires
                    0 <= value_index(p, b, k - 1),
                    off == value_index(p, b, k - 1) * size,
                    size >= 0,
            ;
            le_bytes_bound(d, off, size);
            assert(pow256(8) == 0x1_0000_0000_0000_0000 && pow256(4) == 0x1_0000_0000) by {
                reveal_with_fuel(pow256, 9);
            }
            crate::codec::gather::lemma_pow256_mono_pub(size, 8);
            assert(g[k - 1] as int == le_bytes(d, off, size));
            lemma_put_own_value(prev, d, off, size, x);
        }
    }
}


proof fn lemma_int_casts(x: u64)
    by (bit_vector)
    ensures
        x < 0x1_0000_0000 ==> ((x as u32) as i32) as u32 as u64 == x,
        (x as i64) as u64 == x,
{
}

/// In reversible mode, decoding the code of a block of raw values gives the
/// values back and reads exactly the code.
pub proof fn lemma_block_roundtrip(ty: ZfpScalarType, raw: Seq<u64>, d: nat, c: BlockParams, src: spec_fn(int) -> bool)
    requires
        1 <= d <= 4,
        raw.len() == pow4n(d),
        crate::codec::typed::raw_fits(ty, raw),
        c.min_exp < ZFP_MIN_EXP,
        forall|t: int| 0 <= t < block_code(ty, raw, d, c).len() ==> src(t) == #[trigger] block_code(ty, raw, d, c)[t],
    ensures
        block_decode(ty, src, d, c) == (raw, block_code(ty, raw, d, c).len() as int),
{
    match ty {
        ZfpScalarType::Int32 => {
            crate::codec::block::lemma_rev_int_block_roundtrip_i32(ints_i32(raw), d, u32::MAX, src);
            assert forall|j: int| 0 <= j < raw.len() implies #[trigger] raws_i32(ints_i32(raw))[j] == raw[j] by {
                lemma_int_casts(raw[j]);
            }
            assert(raws_i32(ints_i32(raw)) =~= raw);
        },
        ZfpScalarType::Int64 => {
            crate::codec::block::lemma_rev_int_block_roundtrip_i64(ints_i64(raw), d, u32::MAX, src);
            assert forall|j: int| 0 <= j < raw.len() implies #[trigger] raws_i64(ints_i64(raw))[j] == raw[j] by {
                lemma_int_casts(raw[j]);
            }
            assert(raws_i64(ints_i64(raw)) =~= raw);
        },
        ZfpScalarType::Float => {
            crate::codec::float::lemma_rev_float_roundtrip_f32(raw, d, u32::MAX, src);
        },
        ZfpScalarType::Double => {
            crate::codec::float::lemma_rev_float_roundtrip_f64(raw, d, u32::MAX, src);
        },
    }
}

pub(crate) proof fn lemma_field_code_prefix(data: Seq<u8>, p: FieldPlan, c: BlockParams, k: int, n: int, j: int)
    requires
        0 <= k <= n,
        0 <= j < field_code(data, p, c, k).len(),
    ensures
        field_code(data, p, c, n)[j] == field_code(data, p, c, k)[j],
    decreases n,
{
    if k < n {
        lemma_field_code_prefix(data, p, c, k, n - 1, j);
        crate::compress::lemma_field_code_grows(data, p, c, k, n - 1);
    }
}

proof fn lemma_field_roundtrip_steps(
    data: Seq<u8>,
    t0: Seq<u8>,
    p: FieldPlan,
    c: BlockParams,
    src: spec_fn(int) -> bool,
    k: int,
)
    requires
        plan_wf(p),
        span_bytes(p) <= data.len(),
        t0.len() == data.len(),
        c.min_exp < ZFP_MIN_EXP,
        0 <= k <= p.num_blocks,
        forall|j: int| 0 <= j < field_code(data, p, c, p.num_blocks as int).len() ==> src(j) == #[trigger] field_code(
            data,
            p,
            c,
            p.num_blocks as int,
        )[j],
    ensures
        field_decode(t0, p, c, src, k).1 == field_code(data, p, c, k).len(),
        field_decode(t0, p, c, src, k).0.len() == data.len(),
        forall|b: int, q: int, x: int|
            #![trigger value_range(p, b, q, x)]
            0 <= b < k && 0 <= q < pow4n(p.dims_enum.count()) && inside(p, b, q) && value_range(p, b, q, x) && 0 <= x
                < data.len() ==> field_decode(t0, p, c, src, k).0[x] == data[x],
    decreases k,
{
    if k > 0 {
        lemma_field_roundtrip_steps(data, t0, p, c, src, k - 1);
        let d = p.dims_enum.count();
        let n = p.num_blocks as int;
        let prev = field_decode(t0, p, c, src, k - 1);
        let pos = prev.1;
        let raw = gathered(data, p, k - 1);
        let code = block_code(p.scalar_type, raw, d, c);
        let before = field_code(data, p, c, k - 1);
        assert(field_code(data, p, c, k) == before + code);
        crate::compress::lemma_field_code_grows(data, p, c, k, n);
        let s = |j: int| src(pos + j);
        assert forall|t: int| 0 <= t < code.len() implies s(t) == #[trigger] code[t] by {
            lemma_field_code_prefix(data, p, c, k, n, pos + t);
            assert(field_code(data, p, c, k)[pos + t] == code[t]);
        }
        crate::compress::lemma_gathered_fits(data, p, k - 1);
        assert(1 <= d <= 4);
        lemma_block_roundtrip(p.scalar_type, raw, d, c, s);
        let dec = block_decode(p.scalar_type, s, d, c);
        assert(dec.0 == raw);
        assert(field_decode(t0, p, c, src, k) == (scattered(prev.0, p, k - 1, raw, pow4n(d)), pos + code.len()));
        let m = pow4n(d);
        assert forall|b: int, q: int, x: int|
            #![trigger value_range(p, b, q, x)]
            0 <= b < k && 0 <= q < m && inside(p, b, q) && value_range(p, b, q, x) && 0 <= x < data.len() implies
                scattered(prev.0, p, k - 1, raw, m)[x] == data[x] by {
            lemma_scatter_own_values(prev.0, data, p, k - 1, m, x);
        }
        lemma_scattered_len(prev.0, p, k - 1, raw, m);
    }
}

/// Reversible coding of a whole field is lossless: decoding, over any bytes
/// of the same length, the bits that coding the field's blocks wrote reads
/// exactly those bits and gives every value of the field back the bytes it had.
pub proof fn lemma_reversible_field_roundtrip(
    data: Seq<u8>,
    target: Seq<u8>,
    p: FieldPlan,
    c: BlockParams,
    src: spec_fn(int) -> bool,
)
    requires
        plan_wf(p),
        span_bytes(p) <= data.len(),
        target.len() == data.len(),
        c.min_exp < ZFP_MIN_EXP,
        forall|j: int| 0 <= j < field_code(data, p, c, p.num_blocks as int).len() ==> src(j) == #[trigger] field_code(
            data,
            p,
            c,
            p.num_blocks as int,
        )[j],
    ensures
        field_decode(target, p, c, src, p.num_blocks as int).1 == field_code(data, p, c, p.num_blocks as int).len(),
        forall|b: int, q: int, x: int|
            #![trigger value_range(p, b, q, x)]
            0 <= b < p.num_blocks && 0 <= q < pow4n(p.dims_enum.count()) && inside(p, b, q) && value_range(p, b, q, x)
                ==> field_decode(target, p, c, src, p.num_blocks as int).0[x] == data[x],
{
    lemma_field_roundtrip_steps(data, target, p, c, src, p.num_blocks as int);
    assert forall|b: int, q: int, x: int|
        #![trigger value_range(p, b, q, x)]
        0 <= b < p.num_blocks && 0 <= q < pow4n(p.dims_enum.count()) && inside(p, b, q) && value_range(p, b, q, x)
            implies field_decode(target, p, c, src, p.num_blocks as int).0[x] == data[x] by {
        let size = p.scalar_type.spec_size();
        lemma_value_index_bounds(p, b, q);
        assert(0 <= value_index(p, b, q) * size) by (nonlinear_arith)
            requires
                0 <= value_index(p, b, q),
                size >= 0,
        ;
        assert(value_index(p, b, q) * size + size <= span_bytes(p)) by (nonlinear_arith)
            requires
                0 <= value_index(p, b, q) <= crate::field::spec_index_span(p.dims, p.strides).1 - p.imin,
                span_bytes(p) == (crate::field::spec_index_span(p.dims, p.strides).1 - p.imin + 1) * size,
                size >= 0,
        ;
    }
}


/// Compressing a field reversibly into a fresh stream, rewinding, and
/// decompressing into bytes of the same length and layout gives back every
/// value of the field, and reads exactly the bits that were written.
pub proof fn lemma_compress_decompress_lossless(
    w0: Seq<u64>,
    s1: BitStreamState,
    w1: Seq<u64>,
    field: ZfpField,
    config: ZfpConfig,
    r: Result<usize, ZfpCompressionError>,
    target: Seq<u8>,
    s3: BitStreamState,
    w3: Seq<u64>,
    out: Seq<u8>,
    r2: Result<usize, ZfpDecompressionError>,
)
    requires
        compress_pre(BitStreamState::spec_new(), w0, field, config),
        compress_post(BitStreamState::spec_new(), w0, s1, w1, field, config, r),
        r is Ok,
        config.spec_min_exp() < ZFP_MIN_EXP,
        target.len() == field.spec_data().len(),
        decompress_post(
            BitStreamState::spec_new(),
            w1,
            s3,
            w3,
            target,
            field.spec_scalar_type(),
            field.spec_dims(),
            field.spec_strides(),
            out,
            config,
            r2,
        ),
    ensures
        r2 is Ok,
        spec_plan(
            field.spec_data().len() as int,
            field.spec_scalar_type(),
            field.spec_dims(),
            field.spec_strides(),
        ) matches Ok(p) && forall|b: int, q: int, x: int|
            #![trigger value_range(p, b, q, x)]
            0 <= b < p.num_blocks && 0 <= q < pow4n(p.dims_enum.count()) && inside(p, b, q) && value_range(p, b, q, x)
                ==> out[x] == field.spec_data()[x],
{
    let data = field.spec_data();
    let len = data.len() as int;
    let ty = field.spec_scalar_type();
    let dims = field.spec_dims();
    let strides = field.spec_strides();
    let c = params_of(config);
    lemma_plan_wf(len, ty, dims, strides);
    let p = spec_plan(len, ty, dims, strides)->Ok_0;
    let code = field_code(data, p, c, p.num_blocks as int);
    let s0 = BitStreamState::spec_new();
    assert(s0.written(w0) =~= Seq::<bool>::empty());
    assert(spec_compressed(field, config) == code);
    assert(s1.written(w1) == Seq::<bool>::empty() + code + zero_bits(flush_pad(code.len() as int)));
    let src = |j: int| s0.pending(w1, j);
    assert(s1.written(w1).len() == s1.word_pos * 64);
    assert forall|j: int| 0 <= j < code.len() implies src(j) == #[trigger] code[j] by {
        assert(s1.written(w1)[j] == code[j]);
        assert(j < s1.word_pos * 64);
        assert(s1.written(w1)[j] == stream_bit(w1, j));
    }
    lemma_reversible_field_roundtrip(data, target, p, c, src);
}

} // verus!
