//! Coding of one block of raw values of any scalar type, lossily or
//! reversibly.
//!
//! A raw value holds the bits of one value of the field: the two's
//! complement bits of an integer, or the IEEE-754 pattern of a
//! floating-point value.

use vstd::prelude::*;
use crate::bitstream::ops::{ZfpBitStreamMutOps, ZfpBitStreamOps};
use crate::bitstream::stream_core::{has_room, reads_within};
use crate::codec::block::{
    decode_int_block_i32, decode_int_block_i64, decode_rev_int_block_i32, decode_rev_int_block_i64,
    encode_int_block_i32, encode_int_block_i64, encode_rev_int_block_i32, encode_rev_int_block_i64,
    lossy_int_bits_i32, lossy_int_bits_i64, lossy_int_decode_i32, lossy_int_decode_i64, rev_int_bits_i32,
    rev_int_bits_i64, rev_int_decode_i32, rev_int_decode_i64,
};
use crate::codec::float::{
    decode_lossy_float_block_f32, decode_lossy_float_block_f64, decode_rev_float_block_f32,
    decode_rev_float_block_f64, encode_lossy_float_block_f32, encode_lossy_float_block_f64,
    encode_rev_float_block_f32, encode_rev_float_block_f64, lossy_float_bits_f32, lossy_float_bits_f64,
    lossy_float_decode_f32, lossy_float_decode_f64, patterns_f32, patterns_f64, rev_float_bits_f32,
    rev_float_bits_f64, rev_float_decode_f32, rev_float_decode_f64,
};
use crate::codec::order::pow4n;
use crate::types::{ZfpBlockError, ZfpDimensionality, ZfpScalarType, ZFP_MIN_EXP};

verus! {

/// The parameters a block is coded with: least and greatest bit count,
/// greatest precision and least exponent. A least exponent below
/// `ZFP_MIN_EXP` selects reversible coding.
pub struct BlockParams {
    pub min_bits: u32,
    pub max_bits: u32,
    pub max_prec: u32,
    pub min_exp: i32,
}

/// The 32-bit integers that raw values stand for.
pub open spec fn ints_i32(raw: Seq<u64>) -> Seq<i32> {
    Seq::new(raw.len(), |j: int| raw[j] as u32 as i32)
}

/// The 64-bit integers that raw values stand for.
pub open spec fn ints_i64(raw: Seq<u64>) -> Seq<i64> {
    Seq::new(raw.len(), |j: int| raw[j] as i64)
}

/// The raw values of 32-bit integers.
pub open spec fn raws_i32(x: Seq<i32>) -> Seq<u64> {
    Seq::new(x.len(), |j: int| x[j] as u32 as u64)
}

/// The raw values of 64-bit integers.
pub open spec fn raws_i64(x: Seq<i64>) -> Seq<u64> {
    Seq::new(x.len(), |j: int| x[j] as u64)
}

/// Every raw value fits the width of the scalar type.
pub open spec fn raw_fits(ty: ZfpScalarType, raw: Seq<u64>) -> bool {
    match ty {
        ZfpScalarType::Int32 | ZfpScalarType::Float => patterns_f32(raw),
        _ => true,
    }
}

/// The bits of a block of raw values of type `ty`.
pub open spec fn block_code(ty: ZfpScalarType, raw: Seq<u64>, d: nat, c: BlockParams) -> Seq<bool> {
    if c.min_exp < ZFP_MIN_EXP {
        match ty {
            ZfpScalarType::Int32 => rev_int_bits_i32(ints_i32(raw), d, u32::MAX),
            ZfpScalarType::Int64 => rev_int_bits_i64(ints_i64(raw), d, u32::MAX),
            ZfpScalarType::Float => rev_float_bits_f32(raw, d, u32::MAX),
            ZfpScalarType::Double => rev_float_bits_f64(raw, d, u32::MAX),
        }
    } else {
        match ty {
            ZfpScalarType::Int32 => lossy_int_bits_i32(ints_i32(raw), d, c.min_bits, c.max_bits, c.max_prec),
            ZfpScalarType::Int64 => lossy_int_bits_i64(ints_i64(raw), d, c.min_bits, c.max_bits, c.max_prec),
            ZfpScalarType::Float => lossy_float_bits_f32(raw, d, c.min_bits, c.max_bits, c.max_prec, c.min_exp),
            ZfpScalarType::Double => lossy_float_bits_f64(raw, d, c.min_bits, c.max_bits, c.max_prec, c.min_exp),
        }
    }
}

/// The raw values of a block of type `ty` and the bit count that decoding reads from `src`.
pub open spec fn block_decode(ty: ZfpScalarType, src: spec_fn(int) -> bool, d: nat, c: BlockParams) -> (Seq<u64>, int) {
    if c.min_exp < ZFP_MIN_EXP {
        match ty {
            ZfpScalarType::Int32 => {
                let r = rev_int_decode_i32(src, d, u32::MAX);
                (raws_i32(r.0), r.1)
            },
            ZfpScalarType::Int64 => {
                let r = rev_int_decode_i64(src, d, u32::MAX);
                (raws_i64(r.0), r.1)
            },
            ZfpScalarType::Float => rev_float_decode_f32(src, d, u32::MAX),
            ZfpScalarType::Double => rev_float_decode_f64(src, d, u32::MAX),
        }
    } else {
        match ty {
            ZfpScalarType::Int32 => {
                let r = lossy_int_decode_i32(src, d, c.min_bits, c.max_bits, c.max_prec);
                (raws_i32(r.0), r.1)
            },
            ZfpScalarType::Int64 => {
                let r = lossy_int_decode_i64(src, d, c.min_bits, c.max_bits, c.max_prec);
                (raws_i64(r.0), r.1)
            },
            ZfpScalarType::Float => lossy_float_decode_f32(src, d, c.min_bits, c.max_bits, c.max_prec, c.min_exp),
            ZfpScalarType::Double => lossy_float_decode_f64(src, d, c.min_bits, c.max_bits, c.max_prec, c.min_exp),
        }
    }
}

fn to_i32(raw: &[u64]) -> (r: Vec<i32>)
    ensures
        r@ == ints_i32(raw@),
{
    let mut v: Vec<i32> = Vec::new();
    let mut k: usize = 0;
    while k < raw.len()
        invariant
            k <= raw@.len(),
            v@ == ints_i32(raw@).take(k as int),
        decreases raw@.len() - k,
    {
        let x = raw[k] as u32 as i32;
        proof {
            assert(ints_i32(raw@).take(k + 1) =~= ints_i32(raw@).take(k as int).push(x));
        }
        v.push(x);
        k = k + 1;
    }
    proof {
        assert(ints_i32(raw@).take(k as int) =~= ints_i32(raw@));
    }
    v
}

fn to_i64(raw: &[u64]) -> (r: Vec<i64>)
    ensures
        r@ == ints_i64(raw@),
{
    let mut v: Vec<i64> = Vec::new();
    let mut k: usize = 0;
    while k < raw.len()
        invariant
            k <= raw@.len(),
            v@ == ints_i64(raw@).take(k as int),
        decreases raw@.len() - k,
    {
        let x = raw[k] as i64;
        proof {
            assert(ints_i64(raw@).take(k + 1) =~= ints_i64(raw@).take(k as int).push(x));
        }
        v.push(x);
        k = k + 1;
    }
    proof {
        assert(ints_i64(raw@).take(k as int) =~= ints_i64(raw@));
    }
    v
}

fn from_i32(x: &[i32], out: &mut [u64])
    requires
        old(out)@.len() == x@.len(),
    ensures
        final(out)@ == raws_i32(x@),
{
    let mut k: usize = 0;
    while k < x.len()
        invariant
            k <= x@.len(),
            out@.len() == x@.len(),
            forall|j: int| 0 <= j < k ==> #[trigger] out@[j] == x@[j] as u32 as u64,
        decreases x@.len() - k,
    {
        out[k] = x[k] as u32 as u64;
        k = k + 1;
    }
    proof {
        assert(out@ =~= raws_i32(x@));
    }
}

fn from_i64(x: &[i64], out: &mut [u64])
    requires
        old(out)@.len() == x@.len(),
    ensures
        final(out)@ == raws_i64(x@),
{
    let mut k: usize = 0;
    while k < x.len()
        invariant
            k <= x@.len(),
            out@.len() == x@.len(),
            forall|j: int| 0 <= j < k ==> #[trigger] out@[j] == x@[j] as u64,
        decreases x@.len() - k,
    {
        out[k] = x[k] as u64;
        k = k + 1;
    }
    proof {
        assert(out@ =~= raws_i64(x@));
    }
}

/// Code a block of `4^d` raw values of type `ty`; return the bits written.
pub fn encode_block<S: ZfpBitStreamMutOps>(bs: &mut S, ty: ZfpScalarType, raw: &[u64], d: usize, c: &BlockParams) -> (r: u64)
    requires
        old(bs).spec_state().wf(),
        1 <= d <= 4,
        raw@.len() == pow4n(d as nat),
        raw_fits(ty, raw@),
        has_room(old(bs).spec_state(), old(bs).spec_words(), block_code(ty, raw@, d as nat, *c).len() as int),
    ensures
        final(bs).spec_state().wf(),
        final(bs).spec_words().len() == old(bs).spec_words().len(),
        final(bs).spec_state().written(final(bs).spec_words()) == old(bs).spec_state().written(old(bs).spec_words())
            + block_code(ty, raw@, d as nat, *c),
        r == block_code(ty, raw@, d as nat, *c).len(),
{
    if c.min_exp < ZFP_MIN_EXP {
        match ty {
            ZfpScalarType::Int32 => {
                let x = to_i32(raw);
                encode_rev_int_block_i32(bs, x.as_slice(), d, u32::MAX) as u64
            },
            ZfpScalarType::Int64 => {
                let x = to_i64(raw);
                encode_rev_int_block_i64(bs, x.as_slice(), d, u32::MAX) as u64
            },
            ZfpScalarType::Float => encode_rev_float_block_f32(bs, raw, d, u32::MAX) as u64,
            ZfpScalarType::Double => encode_rev_float_block_f64(bs, raw, d, u32::MAX) as u64,
        }
    } else {
        match ty {
            ZfpScalarType::Int32 => {
                let x = to_i32(raw);
                encode_int_block_i32(bs, x.as_slice(), d, c.min_bits, c.max_bits, c.max_prec) as u64
            },
            ZfpScalarType::Int64 => {
                let x = to_i64(raw);
                encode_int_block_i64(bs, x.as_slice(), d, c.min_bits, c.max_bits, c.max_prec) as u64
            },
            ZfpScalarType::Float => encode_lossy_float_block_f32(bs, raw, d, c.min_bits, c.max_bits, c.max_prec, c.min_exp),
            ZfpScalarType::Double => encode_lossy_float_block_f64(bs, raw, d, c.min_bits, c.max_bits, c.max_prec, c.min_exp),
        }
    }
}

/// Decode a block of `4^d` raw values of type `ty`; return the bits read.
pub fn decode_block<S: ZfpBitStreamOps>(
    bs: &mut S,
    ty: ZfpScalarType,
    out: &mut [u64],
    d: usize,
    c: &BlockParams,
    Ghost(src): Ghost<spec_fn(int) -> bool>,
) -> (r: u64)
    requires
        old(bs).spec_state().wf(),
        1 <= d <= 4,
        old(out)@.len() == pow4n(d as nat),
        forall|j: int| 0 <= j ==> #[trigger] old(bs).spec_state().pending(old(bs).spec_words(), j) == src(j),
    ensures
        ({
            let dec = block_decode(ty, src, d as nat, *c);
            &&& final(out)@ == dec.0
            &&& r == dec.1
            &&& forall|j: int| 0 <= j ==> #[trigger] final(bs).spec_state().pending(final(bs).spec_words(), j) == src(r + j)
        }),
        final(bs).spec_state().wf(),
        final(bs).spec_words() == old(bs).spec_words(),
        final(out)@.len() == old(out)@.len(),
        reads_within(old(bs).spec_words(), old(bs).spec_state(), r as int) ==> final(bs).spec_state().read_offset()
            == old(bs).spec_state().read_offset() + r,
{
    let n = out.len();
    if c.min_exp < ZFP_MIN_EXP {
        match ty {
            ZfpScalarType::Int32 => {
                let mut x: Vec<i32> = vec_i32(n);
                let r = decode_rev_int_block_i32(bs, x.as_mut_slice(), d, u32::MAX, Ghost(src));
                from_i32(x.as_slice(), out);
                r as u64
            },
            ZfpScalarType::Int64 => {
                let mut x: Vec<i64> = vec_i64(n);
                let r = decode_rev_int_block_i64(bs, x.as_mut_slice(), d, u32::MAX, Ghost(src));
                from_i64(x.as_slice(), out);
                r as u64
            },
            ZfpScalarType::Float => decode_rev_float_block_f32(bs, out, d, u32::MAX, Ghost(src)) as u64,
            ZfpScalarType::Double => decode_rev_float_block_f64(bs, out, d, u32::MAX, Ghost(src)) as u64,
        }
    } else {
        match ty {
            ZfpScalarType::Int32 => {
                let mut x: Vec<i32> = vec_i32(n);
                let r = decode_int_block_i32(bs, x.as_mut_slice(), d, c.min_bits, c.max_bits, c.max_prec, Ghost(src));
                from_i32(x.as_slice(), out);
                r as u64
            },
            ZfpScalarType::Int64 => {
                let mut x: Vec<i64> = vec_i64(n);
                let r = decode_int_block_i64(bs, x.as_mut_slice(), d, c.min_bits, c.max_bits, c.max_prec, Ghost(src));
                from_i64(x.as_slice(), out);
                r as u64
            },
            ZfpScalarType::Float => decode_lossy_float_block_f32(
                bs,
                out,
                d,
                c.min_bits,
                c.max_bits,
                c.max_prec,
                c.min_exp,
                Ghost(src),
            ),
            ZfpScalarType::Double => decode_lossy_float_block_f64(
                bs,
                out,
                d,
                c.min_bits,
                c.max_bits,
                c.max_prec,
                c.min_exp,
                Ghost(src),
            ),
        }
    }
}

/// The parameters a block of `4^d` values of type `ty` is coded with by
/// default: no least bit count, room for every bit plane (and the exponent of
/// a floating-point block), every plane of the type, and the least exponent
/// of the type.
pub open spec fn default_params(ty: ZfpScalarType, d: nat) -> BlockParams {
    let size = pow4n(d);
    match ty {
        ZfpScalarType::Int32 => BlockParams { min_bits: 0, max_bits: (32 * size + 1) as u32, max_prec: 32, min_exp: ZFP_MIN_EXP },
        ZfpScalarType::Int64 => BlockParams { min_bits: 0, max_bits: (64 * size + 1) as u32, max_prec: 64, min_exp: ZFP_MIN_EXP },
        ZfpScalarType::Float => BlockParams { min_bits: 0, max_bits: (9 + 32 * size) as u32, max_prec: 32, min_exp: -149i32 },
        ZfpScalarType::Double => BlockParams { min_bits: 0, max_bits: (12 + 64 * size) as u32, max_prec: 64, min_exp: -1074i32 },
    }
}

/// The default parameters of blocks of type `ty` with `dims` dimensions.
pub fn default_block_params(ty: ZfpScalarType, dims: ZfpDimensionality) -> (r: BlockParams)
    ensures
        r == default_params(ty, dims.count()),
{
    let size: u32 = dims.block_size() as u32;
    match ty {
        ZfpScalarType::Int32 => BlockParams { min_bits: 0, max_bits: 32 * size + 1, max_prec: 32, min_exp: ZFP_MIN_EXP },
        ZfpScalarType::Int64 => BlockParams { min_bits: 0, max_bits: 64 * size + 1, max_prec: 64, min_exp: ZFP_MIN_EXP },
        ZfpScalarType::Float => BlockParams { min_bits: 0, max_bits: 9 + 32 * size, max_prec: 32, min_exp: -149i32 },
        ZfpScalarType::Double => BlockParams { min_bits: 0, max_bits: 12 + 64 * size, max_prec: 64, min_exp: -1074i32 },
    }
}

/// Code one block of raw values of type `ty` with `dims` dimensions; a slice
/// that is not one block long is refused with the stream left as it was.
pub fn encode_block_checked<S: ZfpBitStreamMutOps>(
    bs: &mut S,
    ty: ZfpScalarType,
    raw: &[u64],
    dims: ZfpDimensionality,
    c: &BlockParams,
) -> (r: Result<u64, ZfpBlockError>)
    requires
        old(bs).spec_state().wf(),
        raw@.len() == dims.spec_block_size() ==> raw_fits(ty, raw@) && has_room(
            old(bs).spec_state(),
            old(bs).spec_words(),
            block_code(ty, raw@, dims.count(), *c).len() as int,
        ),
    ensures
        raw@.len() != dims.spec_block_size() ==> r == Err::<u64, ZfpBlockError>(ZfpBlockError) && *final(bs) == *old(bs),
        raw@.len() == dims.spec_block_size() ==> {
            let code = block_code(ty, raw@, dims.count(), *c);
            &&& r == Ok::<u64, ZfpBlockError>(code.len() as u64)
            &&& final(bs).spec_state().wf()
            &&& final(bs).spec_words().len() == old(bs).spec_words().len()
            &&& final(bs).spec_state().written(final(bs).spec_words()) == old(bs).spec_state().written(
                old(bs).spec_words(),
            ) + code
        },
{
    if raw.len() != dims.block_size() {
        return Err(ZfpBlockError);
    }
    let n = encode_block(bs, ty, raw, dims.as_usize(), c);
    Ok(n)
}

/// Decode one block of raw values of type `ty` with `dims` dimensions into
/// `out`; a slice that is not one block long is refused with the stream and
/// the slice left as they were.
pub fn decode_block_checked<S: ZfpBitStreamOps>(
    bs: &mut S,
    ty: ZfpScalarType,
    out: &mut [u64],
    dims: ZfpDimensionality,
    c: &BlockParams,
) -> (r: Result<u64, ZfpBlockError>)
    requires
        old(bs).spec_state().wf(),
    ensures
        old(out)@.len() != dims.spec_block_size() ==> r == Err::<u64, ZfpBlockError>(ZfpBlockError) && *final(bs)
            == *old(bs) && final(out)@ == old(out)@,
        old(out)@.len() == dims.spec_block_size() ==> {
            let src = |j: int| old(bs).spec_state().pending(old(bs).spec_words(), j);
            let dec = block_decode(ty, src, dims.count(), *c);
            &&& r == Ok::<u64, ZfpBlockError>(dec.1 as u64)
            &&& final(out)@ == dec.0
            &&& forall|j: int| 0 <= j ==> #[trigger] final(bs).spec_state().pending(final(bs).spec_words(), j) == src(dec.1 + j)
            &&& final(bs).spec_state().wf()
            &&& final(bs).spec_words() == old(bs).spec_words()
            &&& reads_within(old(bs).spec_words(), old(bs).spec_state(), dec.1) ==> final(bs).spec_state().read_offset()
                == old(bs).spec_state().read_offset() + dec.1
        },
{
    if out.len() != dims.block_size() {
        return Err(ZfpBlockError);
    }
    let ghost src = |j: int| old(bs).spec_state().pending(old(bs).spec_words(), j);
    let n = decode_block(bs, ty, out, dims.as_usize(), c, Ghost(src));
    Ok(n)
}

fn vec_i32(n: usize) -> (r: Vec<i32>)
    ensures
        r@.len() == n,
{
    let mut v: Vec<i32> = Vec::new();
    let mut k: usize = 0;
    while k < n
        invariant
            k <= n,
            v@.len() == k,
        decreases n - k,
    {
        v.push(0);
        k = k + 1;
    }
    v
}

fn vec_i64(n: usize) -> (r: Vec<i64>)
    ensures
        r@.len() == n,
{
    let mut v: Vec<i64> = Vec::new();
    let mut k: usize = 0;
    while k < n
        invariant
            k <= n,
            v@.len() == k,
        decreases n - k,
    {
        v.push(0);
        k = k + 1;
    }
    v
}

} // verus!
