//! Every block code fits the bound that `maximum_size` counts per block, so
//! that a stream of `maximum_size` bytes has room for any compressed field.

use vstd::prelude::*;
use crate::codec::block::{
    coded_budget, lossy_int_bits_i32, lossy_int_bits_i64, pad_bits, rev_int_bits_i32, rev_int_bits_i64, rev_prec,
    sat_sub,
};
use crate::codec::embedded::{emb_encode, lemma_emb_plane_bound, lowest_plane};
use crate::codec::float::{
    float_precision, lossy_float_bits_f32, lossy_float_bits_f64, rev_float_bits_f32, rev_float_bits_f64,
    spec_block_emax_f32, spec_block_emax_f64,
};
use crate::codec::order::{fwd_order_spec_i32, fwd_order_spec_i64, pow4n};
use crate::codec::transform::{xform_spec_i32, xform_spec_i64, LiftKind};
use crate::codec::typed::{block_code, ints_i32, ints_i64, raw_fits};
use crate::bitstream::stream_core::{has_room, BitStreamState};
use crate::codec::gather::gathered;
use crate::compress::{field_code, lemma_gathered_fits, params_of, spec_compressed, spec_compressible};
use crate::config::{pow4_u, spec_block_count, spec_max_block_bits, spec_maximum_size, ZfpConfig};
use crate::field::{spec_dimensionality, spec_num_blocks, ZfpField};
use crate::field_plan::{spec_plan, FieldPlan};
use crate::fixed_rate::lemma_coded_within;
use crate::types::{ZfpScalarType, ZFP_MIN_EXP};

verus! {

/// The embedded code of `size` values in at most `q` planes takes at most
/// `(q + 1) * size - 1` bits, whatever the budget.
proof fn lemma_emb_at_most(u: Seq<u64>, ip: int, budget: int, mp: int, q: int)
    requires
        1 <= u.len(),
        0 <= ip,
        0 <= mp,
        budget >= 0,
        ip - lowest_plane(ip, mp) <= q,
    ensures
        emb_encode(u, ip, budget, mp).len() <= (q + 1) * u.len() - 1,
{
    lemma_emb_plane_bound(u, ip, budget, mp);
    let p = ip - lowest_plane(ip, mp);
    assert((p + 1) * u.len() <= (q + 1) * u.len()) by (nonlinear_arith)
        requires
            p <= q,
            u.len() >= 1,
    ;
}

/// A reversible block of `i32` takes at most `5 + 33 * size - 1` bits.
proof fn lemma_rev_int_bound_i32(x: Seq<i32>, d: nat, maxbits: u32)
    requires
        1 <= d <= 4,
        x.len() == pow4n(d),
    ensures
        rev_int_bits_i32(x, d, maxbits).len() <= 5 + 33 * pow4n(d) - 1,
{
    let u = fwd_order_spec_i32(xform_spec_i32(x, d, LiftKind::ReversibleForward), d);
    let p = rev_prec(u, 32);
    lemma_emb_at_most(u, 32, coded_budget(sat_sub(maxbits, 5), p as u32, pow4n(d)), p, 32);
}

/// A reversible block of `i64` takes at most `6 + 65 * size - 1` bits.
proof fn lemma_rev_int_bound_i64(x: Seq<i64>, d: nat, maxbits: u32)
    requires
        1 <= d <= 4,
        x.len() == pow4n(d),
    ensures
        rev_int_bits_i64(x, d, maxbits).len() <= 6 + 65 * pow4n(d) - 1,
{
    let u = fwd_order_spec_i64(xform_spec_i64(x, d, LiftKind::ReversibleForward), d);
    let p = rev_prec(u, 64);
    lemma_emb_at_most(u, 64, coded_budget(sat_sub(maxbits, 6), p as u32, pow4n(d)), p, 64);
}

/// A lossy block of `i32` takes at most the larger of `minbits` and the
/// smaller of `maxbits` and `(q + 1) * size - 1` bits, for `q` the planes
/// coded.
proof fn lemma_lossy_int_bound_i32(x: Seq<i32>, d: nat, minbits: u32, maxbits: u32, maxprec: u32, q: int)
    requires
        1 <= d <= 4,
        x.len() == pow4n(d),
        (if maxprec < 32 { maxprec as int } else { 32 }) <= q,
    ensures
        lossy_int_bits_i32(x, d, minbits, maxbits, maxprec).len() <= (if minbits > maxbits { minbits as int } else if maxbits
            < (q + 1) * pow4n(d) - 1 { maxbits as int } else if minbits > (q + 1) * pow4n(d) - 1 { minbits as int } else {
            (q + 1) * pow4n(d) - 1
        }),
{
    let u = fwd_order_spec_i32(xform_spec_i32(x, d, LiftKind::Forward), d);
    lemma_coded_within(u, 32, maxbits, maxprec);
    lemma_emb_at_most(u, 32, coded_budget(maxbits, maxprec, pow4n(d)), maxprec as int, q);
}

/// A lossy block of `i64` takes at most the larger of `minbits` and the
/// smaller of `maxbits` and `(q + 1) * size - 1` bits, for `q` the planes
/// coded.
proof fn lemma_lossy_int_bound_i64(x: Seq<i64>, d: nat, minbits: u32, maxbits: u32, maxprec: u32, q: int)
    requires
        1 <= d <= 4,
        x.len() == pow4n(d),
        (if maxprec < 64 { maxprec as int } else { 64 }) <= q,
    ensures
        lossy_int_bits_i64(x, d, minbits, maxbits, maxprec).len() <= (if minbits > maxbits { minbits as int } else if maxbits
            < (q + 1) * pow4n(d) - 1 { maxbits as int } else if minbits > (q + 1) * pow4n(d) - 1 { minbits as int } else {
            (q + 1) * pow4n(d) - 1
        }),
{
    let u = fwd_order_spec_i64(xform_spec_i64(x, d, LiftKind::Forward), d);
    lemma_coded_within(u, 64, maxbits, maxprec);
    lemma_emb_at_most(u, 64, coded_budget(maxbits, maxprec, pow4n(d)), maxprec as int, q);
}

/// Parameters under which the per-block count of `maximum_size` bounds
/// every block: room for the exponent of a lossy floating-point block, and
/// in reversible mode, whose code ignores the precision and bit limits, a
/// count that covers every plane of the type.
pub open spec fn block_bound_holds(c: ZfpConfig, ty: ZfpScalarType, d: nat) -> bool {
    let size = pow4n(d);
    if c.spec_min_exp() < ZFP_MIN_EXP {
        spec_max_block_bits(c, ty, d) >= match ty {
            ZfpScalarType::Int32 => 5 + 33 * size - 1,
            ZfpScalarType::Int64 => 6 + 65 * size - 1,
            ZfpScalarType::Float => 15 + 33 * size - 1,
            ZfpScalarType::Double => 19 + 65 * size - 1,
        }
    } else {
        match ty {
            ZfpScalarType::Float => c.spec_max_bits() >= 9,
            ZfpScalarType::Double => c.spec_max_bits() >= 12,
            _ => true,
        }
    }
}

/// Every block code fits the bits that `maximum_size` counts for one block.
pub proof fn lemma_block_code_bound(ty: ZfpScalarType, raw: Seq<u64>, d: nat, c: ZfpConfig)
    requires
        1 <= d <= 4,
        raw.len() == pow4n(d),
        raw_fits(ty, raw),
        block_bound_holds(c, ty, d),
    ensures
        block_code(ty, raw, d, params_of(c)).len() <= spec_max_block_bits(c, ty, d),
{
    let size = pow4n(d);
    assert(pow4_u(d) == size) by {
        reveal_with_fuel(pow4_u, 5);
    }
    let pr = params_of(c);
    let mp = c.spec_max_prec();
    if c.spec_min_exp() < ZFP_MIN_EXP {
        match ty {
            ZfpScalarType::Int32 => {
                lemma_rev_int_bound_i32(ints_i32(raw), d, u32::MAX);
            },
            ZfpScalarType::Int64 => {
                lemma_rev_int_bound_i64(ints_i64(raw), d, u32::MAX);
            },
            ZfpScalarType::Float => {
                let emax = spec_block_emax_f32(raw);
                let ib = crate::codec::float::rev_ints_f32(raw, emax);
                lemma_rev_int_bound_i32(ib, d, sat_sub(u32::MAX, 10));
                lemma_rev_int_bound_i32(crate::codec::float::tc_block_f32(raw), d, sat_sub(u32::MAX, 2));
            },
            ZfpScalarType::Double => {
                let emax = spec_block_emax_f64(raw);
                let ib = crate::codec::float::rev_ints_f64(raw, emax);
                lemma_rev_int_bound_i64(ib, d, sat_sub(u32::MAX, 13));
                lemma_rev_int_bound_i64(crate::codec::float::tc_block_f64(raw), d, sat_sub(u32::MAX, 2));
            },
        }
    } else {
        match ty {
            ZfpScalarType::Int32 => {
                let q: int = if mp < 32 { mp as int } else { 32 };
                lemma_lossy_int_bound_i32(ints_i32(raw), d, pr.min_bits, pr.max_bits, mp, q);
            },
            ZfpScalarType::Int64 => {
                let q: int = if mp < 64 { mp as int } else { 64 };
                lemma_lossy_int_bound_i64(ints_i64(raw), d, pr.min_bits, pr.max_bits, mp, q);
            },
            ZfpScalarType::Float => {
                let q: int = if mp < 32 { mp as int } else { 32 };
                let emax = spec_block_emax_f32(raw);
                let prec = float_precision(emax, mp, c.spec_min_exp(), d);
                lemma_lossy_int_bound_i32(
                    crate::codec::float::cast_block_f32(raw, emax),
                    d,
                    sat_sub(pr.min_bits, 9),
                    sat_sub(pr.max_bits, 9),
                    prec,
                    q,
                );
            },
            ZfpScalarType::Double => {
                let q: int = if mp < 64 { mp as int } else { 64 };
                let emax = spec_block_emax_f64(raw);
                let prec = float_precision(emax, mp, c.spec_min_exp(), d);
                lemma_lossy_int_bound_i64(
                    crate::codec::float::cast_block_f64(raw, emax),
                    d,
                    sat_sub(pr.min_bits, 12),
                    sat_sub(pr.max_bits, 12),
                    prec,
                    q,
                );
            },
        }
    }
}

/// The code of the first `k` blocks of a grid takes at most `k` times the
/// bits `maximum_size` counts for one block.
pub proof fn lemma_field_code_bound(data: Seq<u8>, p: FieldPlan, c: ZfpConfig, k: int)
    requires
        0 <= k,
        block_bound_holds(c, p.scalar_type, p.dims_enum.count()),
    ensures
        field_code(data, p, params_of(c), k).len() <= k * spec_max_block_bits(c, p.scalar_type, p.dims_enum.count()),
    decreases k,
{
    if k > 0 {
        let d = p.dims_enum.count();
        let m = spec_max_block_bits(c, p.scalar_type, d);
        lemma_field_code_bound(data, p, c, k - 1);
        lemma_gathered_fits(data, p, k - 1);
        lemma_block_code_bound(p.scalar_type, gathered(data, p, k - 1), d, c);
        assert((k - 1) * m + m == k * m) by (nonlinear_arith);
    }
}

/// The blocks `maximum_size` counts for the extents of the active axes are
/// the blocks of the field's grid.
proof fn lemma_block_count(dims4: [usize; 4], dims: Seq<usize>, b: int)
    requires
        dims.len() == spec_dimensionality(dims4).count(),
        forall|a: int| 0 <= a < dims.len() ==> dims[a] == dims4[a],
        spec_block_count(dims) == Some(b),
    ensures
        b == spec_num_blocks(dims4),
{
    let d = dims.len();
    let s0 = dims.subrange(0, 0);
    let s1 = dims.subrange(0, 1);
    let s2 = dims.subrange(0, 2);
    let s3 = dims.subrange(0, 3);
    assert(spec_block_count(s0) == Some(1int));
    let b0 = (dims4[0] + 3) / 4;
    assert(s1.drop_last() =~= s0);
    assert(spec_block_count(s1) matches Some(v) ==> v == b0);
    if d == 1 {
        assert(dims =~= s1);
    } else {
        let b1 = (dims4[1] + 3) / 4;
        assert(s2.drop_last() =~= s1);
        assert(spec_block_count(s2) matches Some(v) ==> v == b0 * b1);
        if d == 2 {
            assert(dims =~= s2);
        } else {
            let b2 = (dims4[2] + 3) / 4;
            assert(s3.drop_last() =~= s2);
            assert(spec_block_count(s3) matches Some(v) ==> v == b0 * b1 * b2);
            if d == 3 {
                assert(dims =~= s3);
            } else {
                assert(dims.drop_last() =~= s3);
            }
        }
    }
}

/// A stream of `maximum_size` bytes, for the extents of the field's active
/// axes, has room for the code of any field that can be compressed, when
/// the parameters leave room for a floating-point block's exponent and, in
/// reversible mode, for every plane of the type within `max_bits`.
pub proof fn lemma_maximum_size_has_room(field: ZfpField, config: ZfpConfig, dims: Seq<usize>, w: Seq<u64>)
    requires
        spec_compressible(field),
        dims.len() == spec_dimensionality(field.spec_dims()).count(),
        forall|a: int| 0 <= a < dims.len() ==> dims[a] == field.spec_dims()[a],
        block_bound_holds(config, field.spec_scalar_type(), dims.len()),
        spec_maximum_size(config, field.spec_scalar_type(), dims) > 0,
        w.len() == (spec_maximum_size(config, field.spec_scalar_type(), dims) + 7) / 8,
    ensures
        has_room(BitStreamState::spec_new(), w, spec_compressed(field, config).len() as int),
{
    let data = field.spec_data();
    let ty = field.spec_scalar_type();
    let dims4 = field.spec_dims();
    let p = spec_plan(data.len() as int, ty, dims4, field.spec_strides())->Ok_0;
    let d = dims.len();
    let m = spec_max_block_bits(config, ty, d);
    let b = spec_block_count(dims)->Some_0;
    lemma_block_count(dims4, dims, b);
    assert(p.num_blocks == b);
    lemma_field_code_bound(data, p, config, b);
    let code = spec_compressed(field, config);
    let bits = b * m + 148;
    let rounded = (bits + 63) / 64 * 64;
    let ms = spec_maximum_size(config, ty, dims);
    assert(ms == rounded / 8);
    assert(m >= 0);
    assert(rounded >= bits && rounded % 64 == 0 && (rounded / 8 + 7) / 8 * 64 == rounded) by (nonlinear_arith)
        requires
            rounded == (bits + 63) / 64 * 64,
            bits >= 0,
    ;
}

} // verus!
