//! In fixed-rate mode every block takes the same number of bits, so block
//! `b` of a field starts at bit `b` times that number.

use vstd::prelude::*;
use crate::codec::block::{coded_budget, lossy_int_bits_i32, lossy_int_bits_i64, sat_sub};
use crate::codec::embedded::{emb_encode, lemma_emb_plane_bound, lemma_emb_within_budget, lowest_plane};
use crate::codec::float::{float_precision, lemma_block_emax_range_f32, lemma_block_emax_range_f64, spec_block_emax_f32, spec_block_emax_f64};
use crate::codec::gather::gathered;
use crate::codec::order::pow4n;
use crate::codec::typed::{block_code, raw_fits, BlockParams};
use crate::compress::{field_code, lemma_gathered_fits};
use crate::field_plan::FieldPlan;
use crate::types::{ZfpScalarType, ZFP_MAX_PREC, ZFP_MIN_EXP};

verus! {

/// Fixed-rate parameters of `m` bits per block, with room for the exponent of
/// a floating-point block.
pub open spec fn fixed_rate_params(ty: ZfpScalarType, c: BlockParams, d: nat) -> bool {
    &&& c.min_bits == c.max_bits
    &&& c.max_prec == ZFP_MAX_PREC
    &&& c.min_exp == ZFP_MIN_EXP
    &&& (ty == ZfpScalarType::Float ==> c.max_bits >= 9)
    &&& (ty == ZfpScalarType::Double ==> c.max_bits >= 12)
}

/// The embedded coder, given the budget that `coded_budget` picks, sends at
/// most `maxbits` bits: either the budget is `maxbits`, or the planes that
/// `maxprec` lets through cannot take more.
pub(crate) proof fn lemma_coded_within(u: Seq<u64>, intprec: int, maxbits: u32, maxprec: u32)
    requires
        1 <= u.len(),
        0 <= intprec,
    ensures
        emb_encode(u, intprec, coded_budget(maxbits, maxprec, u.len() as int), maxprec as int).len() <= maxbits,
{
    let size = u.len() as int;
    if (maxprec + 1) * size > maxbits + 1 {
        lemma_emb_within_budget(u, intprec, maxbits as int, maxprec as int);
    } else {
        lemma_emb_plane_bound(u, intprec, u32::MAX as int, maxprec as int);
        let p = intprec - lowest_plane(intprec, maxprec as int);
        assert((p + 1) * size <= (maxprec + 1) * size) by (nonlinear_arith)
            requires
                p <= maxprec,
                size >= 1,
        ;
    }
}

/// In fixed-rate mode the code of every block takes exactly `max_bits` bits.
pub proof fn lemma_fixed_rate_block_len(ty: ZfpScalarType, raw: Seq<u64>, d: nat, c: BlockParams)
    requires
        1 <= d <= 4,
        raw.len() == pow4n(d),
        raw_fits(ty, raw),
        fixed_rate_params(ty, c, d),
    ensures
        block_code(ty, raw, d, c).len() == c.max_bits,
{
    let m = c.max_bits;
    match ty {
        ZfpScalarType::Int32 => {
            let x = crate::codec::typed::ints_i32(raw);
            let u = crate::codec::order::fwd_order_spec_i32(
                crate::codec::transform::xform_spec_i32(x, d, crate::codec::transform::LiftKind::Forward),
                d,
            );
            lemma_coded_within(u, 32, m, 64);
        },
        ZfpScalarType::Int64 => {
            let x = crate::codec::typed::ints_i64(raw);
            let u = crate::codec::order::fwd_order_spec_i64(
                crate::codec::transform::xform_spec_i64(x, d, crate::codec::transform::LiftKind::Forward),
                d,
            );
            lemma_coded_within(u, 64, m, 64);
        },
        ZfpScalarType::Float => {
            let emax = spec_block_emax_f32(raw);
            lemma_block_emax_range_f32(raw);
            let prec = float_precision(emax, 64, ZFP_MIN_EXP, d);
            if emax + 127 != 0 {
                let mb = sat_sub(m, 9);
                let ib = crate::codec::float::cast_block_f32(raw, emax);
                let u = crate::codec::order::fwd_order_spec_i32(
                    crate::codec::transform::xform_spec_i32(ib, d, crate::codec::transform::LiftKind::Forward),
                    d,
                );
                lemma_coded_within(u, 32, mb, prec);
                assert(lossy_int_bits_i32(ib, d, mb, mb, prec).len() == mb);
            }
        },
        ZfpScalarType::Double => {
            let emax = spec_block_emax_f64(raw);
            lemma_block_emax_range_f64(raw);
            let prec = float_precision(emax, 64, ZFP_MIN_EXP, d);
            if emax + 1023 != 0 {
                let mb = sat_sub(m, 12);
                let ib = crate::codec::float::cast_block_f64(raw, emax);
                let u = crate::codec::order::fwd_order_spec_i64(
                    crate::codec::transform::xform_spec_i64(ib, d, crate::codec::transform::LiftKind::Forward),
                    d,
                );
                lemma_coded_within(u, 64, mb, prec);
                assert(lossy_int_bits_i64(ib, d, mb, mb, prec).len() == mb);
            }
        },
    }
}

/// In fixed-rate mode the code of the first `k` blocks of a field takes
/// `k` times `max_bits` bits, so that block `k` starts at that bit.
pub proof fn lemma_fixed_rate_field_len(data: Seq<u8>, p: FieldPlan, c: BlockParams, k: int)
    requires
        0 <= k,
        1 <= p.dims_enum.count() <= 4,
        fixed_rate_params(p.scalar_type, c, p.dims_enum.count()),
    ensures
        field_code(data, p, c, k).len() == k * c.max_bits,
    decreases k,
{
    if k > 0 {
        lemma_fixed_rate_field_len(data, p, c, k - 1);
        lemma_gathered_fits(data, p, k - 1);
        lemma_fixed_rate_block_len(p.scalar_type, gathered(data, p, k - 1), p.dims_enum.count(), c);
        assert((k - 1) * c.max_bits + c.max_bits == k * c.max_bits) by (nonlinear_arith);
    }
}

} // verus!
