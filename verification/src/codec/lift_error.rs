//! How far the lossy inverse transform lands from the block that the lossy
//! forward transform started from: the forward lifting step rounds its
//! averages down, so the inverse gives back each value up to a few units,
//! and lossy coding at full precision decodes each value to within that.

use vstd::prelude::*;
use crate::codec::block::{
    bits_ext, coded_budget, high_bits_zero, lossy_int_bits_i32, lossy_int_bits_i64, lossy_int_decode_i32,
    lossy_int_decode_i64, pad_bits, pow4_agrees,
};
use crate::codec::embedded::{emb_decode, emb_encode, lowest_plane, plane_bit};
use crate::codec::order::{fwd_order_spec_i32, fwd_order_spec_i64, perm, pow4n};
use crate::codec::transform::{
    axes_up_i32, axes_up_i64, div_mod_parts, div_mod_unique, fwd_lift_spec_i32, fwd_lift_spec_i64, index_facts,
    inv_lift_spec_i32, inv_lift_spec_i64, lift_axis_i32, lift_axis_i64, lift_spec_i32, lift_spec_i64, line_index,
    line_index_facts, line_of, pow4, pow4_positive, xform_spec_i32, xform_spec_i64, LiftKind,
};

verus! {

/// The forward lifting step on unbounded integers, halving by rounding down.
pub open spec fn fwd_lift_int(v: (int, int, int, int)) -> (int, int, int, int) {
    let (x, y, z, w) = v;
    let x = (x + w) / 2;
    let w = w - x;
    let z = (z + y) / 2;
    let y = y - z;
    let x = (x + z) / 2;
    let z = z - x;
    let w = (w + y) / 2;
    let y = y - w;
    let w = w + y / 2;
    let y = y - w / 2;
    (x, y, z, w)
}

/// The inverse lifting step on unbounded integers.
pub open spec fn inv_lift_int(v: (int, int, int, int)) -> (int, int, int, int) {
    let (x, y, z, w) = v;
    let y = y + w / 2;
    let w = w - y / 2;
    let y = y + w;
    let w = w - (y - w);
    let z = z + x;
    let x = x - (z - x);
    let y = y + z;
    let z = z - (y - z);
    let w = w + x;
    let x = x - (w - x);
    (x, y, z, w)
}

/// `a` lies within `e` of zero.
pub open spec fn abs_le(a: int, e: int) -> bool {
    -e <= a <= e
}

/// The error left by undoing one axis, from an error `e` in what it is given:
/// the rounding of the forward step, and when `e` is not zero the inverse
/// step's growth of `e` and its own rounding.
pub open spec fn step_err(e: int) -> int {
    if e == 0 {
        2
    } else {
        6 * e + 4
    }
}

/// The forward step keeps four values within `r` of zero within `r + 2`.
proof fn fwd_lift_int_bound(v: (int, int, int, int), r: int)
    requires
        r >= 0,
        abs_le(v.0, r), abs_le(v.1, r), abs_le(v.2, r), abs_le(v.3, r),
    ensures
        abs_le(fwd_lift_int(v).0, r + 2),
        abs_le(fwd_lift_int(v).1, r + 2),
        abs_le(fwd_lift_int(v).2, r + 2),
        abs_le(fwd_lift_int(v).3, r + 2),
{
}

/// Every partial result of the forward step on values within `r` of zero
/// lies within `2r + 4` of zero.
proof fn fwd_lift_int_partials(v: (int, int, int, int), r: int)
    requires
        r >= 0,
        abs_le(v.0, r), abs_le(v.1, r), abs_le(v.2, r), abs_le(v.3, r),
    ensures
        ({
            let (x, y, z, w) = v;
            let x1 = (x + w) / 2;
            let w1 = w - x1;
            let z1 = (z + y) / 2;
            let y1 = y - z1;
            let x2 = (x1 + z1) / 2;
            let z2 = z1 - x2;
            let w2 = (w1 + y1) / 2;
            let y2 = y1 - w2;
            let w3 = w2 + y2 / 2;
            let y3 = y2 - w3 / 2;
            let m = 2 * r + 4;
            &&& abs_le(x + w, m) &&& abs_le(x1, m) &&& abs_le(w1, m) &&& abs_le(z + y, m)
            &&& abs_le(z1, m) &&& abs_le(y1, m) &&& abs_le(x1 + z1, m) &&& abs_le(x2, m)
            &&& abs_le(z2, m) &&& abs_le(w1 + y1, m) &&& abs_le(w2, m) &&& abs_le(y2, m)
            &&& abs_le(w3, m) &&& abs_le(y3, m)
        }),
{
}

/// The inverse step on values within `e` of a forward step of values within
/// `r` of zero keeps every partial result within `r + 16e + 16` of zero.
proof fn inv_lift_int_partials(v: (int, int, int, int), a: (int, int, int, int), r: int, e: int)
    requires
        r >= 0,
        e >= 0,
        abs_le(v.0, r), abs_le(v.1, r), abs_le(v.2, r), abs_le(v.3, r),
        abs_le(a.0 - fwd_lift_int(v).0, e), abs_le(a.1 - fwd_lift_int(v).1, e),
        abs_le(a.2 - fwd_lift_int(v).2, e), abs_le(a.3 - fwd_lift_int(v).3, e),
    ensures
        ({
            let (x, y, z, w) = a;
            let y1 = y + w / 2;
            let w1 = w - y1 / 2;
            let y2 = y1 + w1;
            let w2 = w1 - y1;
            let z1 = z + x;
            let x1 = x - z;
            let y3 = y2 + z1;
            let z2 = z1 - y2;
            let w3 = w2 + x1;
            let x2 = x1 - w2;
            let m = r + 16 * e + 16;
            &&& abs_le(y1, m) &&& abs_le(w1, m) &&& abs_le(y2, m) &&& abs_le(w2, m)
            &&& abs_le(z1, m) &&& abs_le(x1, m) &&& abs_le(y3, m) &&& abs_le(z2, m)
            &&& abs_le(w3, m) &&& abs_le(x2, m)
            &&& abs_le(x, m) &&& abs_le(y, m) &&& abs_le(z, m) &&& abs_le(w, m)
        }),
{
}

/// The inverse step gives back what the forward step started from, up to 2.
proof fn lift_int_roundtrip(v: (int, int, int, int))
    ensures
        abs_le(inv_lift_int(fwd_lift_int(v)).0 - v.0, 2),
        abs_le(inv_lift_int(fwd_lift_int(v)).1 - v.1, 2),
        abs_le(inv_lift_int(fwd_lift_int(v)).2 - v.2, 2),
        abs_le(inv_lift_int(fwd_lift_int(v)).3 - v.3, 2),
{
}

/// Inputs that differ by at most `e` give inverse steps that differ by at most `6e + 2`.
proof fn inv_lift_int_lipschitz(a: (int, int, int, int), b: (int, int, int, int), e: int)
    requires
        e >= 0,
        abs_le(a.0 - b.0, e), abs_le(a.1 - b.1, e), abs_le(a.2 - b.2, e), abs_le(a.3 - b.3, e),
    ensures
        abs_le(inv_lift_int(a).0 - inv_lift_int(b).0, 6 * e + 2),
        abs_le(inv_lift_int(a).1 - inv_lift_int(b).1, 6 * e + 2),
        abs_le(inv_lift_int(a).2 - inv_lift_int(b).2, 6 * e + 2),
        abs_le(inv_lift_int(a).3 - inv_lift_int(b).3, 6 * e + 2),
{
}

/// Undoing one axis from an error `e` in what it is given, inverse step on
/// unbounded integers: within `step_err(e)` of the start.
proof fn lift_int_down_step(v: (int, int, int, int), a: (int, int, int, int), e: int)
    requires
        e >= 0,
        abs_le(a.0 - fwd_lift_int(v).0, e), abs_le(a.1 - fwd_lift_int(v).1, e),
        abs_le(a.2 - fwd_lift_int(v).2, e), abs_le(a.3 - fwd_lift_int(v).3, e),
    ensures
        abs_le(inv_lift_int(a).0 - v.0, step_err(e)),
        abs_le(inv_lift_int(a).1 - v.1, step_err(e)),
        abs_le(inv_lift_int(a).2 - v.2, step_err(e)),
        abs_le(inv_lift_int(a).3 - v.3, step_err(e)),
{
    lift_int_roundtrip(v);
    if e == 0 {
        assert(a == fwd_lift_int(v));
    } else {
        inv_lift_int_lipschitz(a, fwd_lift_int(v), e);
    }
}

/// The error bound after undoing `k` more axes, starting from an error `e`.
pub open spec fn err_after(k: nat, e: int) -> int
    decreases k,
{
    if k == 0 {
        e
    } else {
        err_after((k - 1) as nat, step_err(e))
    }
}

/// How far the lossy inverse transform of a `d`-dimensional block may land
/// from the block the lossy forward transform started from.
pub open spec fn lossy_xform_tolerance(d: nat) -> int {
    if d == 1 {
        2
    } else if d == 2 {
        16
    } else if d == 3 {
        100
    } else {
        604
    }
}

proof fn err_after_grows(k: nat, e: int)
    requires
        e >= 0,
    ensures
        err_after(k, e) >= e,
    decreases k,
{
    if k > 0 {
        err_after_grows((k - 1) as nat, step_err(e));
    }
}

/// A length that is a multiple of `4^k` is a multiple of `4^(k-1)`.
proof fn len_multiple(n: int, k: nat)
    requires
        k > 0,
        n >= 0,
        n % pow4(k) == 0,
    ensures
        n % pow4((k - 1) as nat) == 0,
        n % (4 * pow4((k - 1) as nat)) == 0,
{
    let e = (k - 1) as nat;
    pow4_positive(e);
    pow4_positive(k);
    div_mod_parts(n, pow4(k));
    let q = n / pow4(k);
    assert(n == (4 * q) * pow4(e) + 0) by (nonlinear_arith)
        requires
            n == q * pow4(k) + 0,
            pow4(k) == 4 * pow4(e),
    ;
    div_mod_unique(n, pow4(e), 4 * q, 0);
}

/// An arithmetic shift right by one halves, rounding down.
proof fn shr1_i32(a: i32)
    ensures
        (a >> 1u32) as int == a as int / 2,
{
    assert(2 * (a >> 1u32) <= a && a <= 2 * (a >> 1u32) + 1) by (bit_vector);
}

/// Four values of `i32` as unbounded integers.
pub open spec fn ints_i32(v: (i32, i32, i32, i32)) -> (int, int, int, int) {
    (v.0 as int, v.1 as int, v.2 as int, v.3 as int)
}

/// On values within `2^30 - 16` of zero, the forward step on `i32` does not wrap.
#[verifier::spinoff_prover]
#[verifier::rlimit(40)]
proof fn fwd_lift_exact_i32(v: (i32, i32, i32, i32))
    requires
        abs_le(v.0 as int, 0x3fff_fff0), abs_le(v.1 as int, 0x3fff_fff0),
        abs_le(v.2 as int, 0x3fff_fff0), abs_le(v.3 as int, 0x3fff_fff0),
    ensures
        ints_i32(fwd_lift_spec_i32(v)) == fwd_lift_int(ints_i32(v)),
{
    fwd_lift_int_partials(ints_i32(v), 0x3fff_fff0);
    let (x, y, z, w) = v;
    let x1 = x.wrapping_add(w) >> 1u32;
    shr1_i32(x.wrapping_add(w));
    let w1 = w.wrapping_sub(x1);
    let z1 = z.wrapping_add(y) >> 1u32;
    shr1_i32(z.wrapping_add(y));
    let y1 = y.wrapping_sub(z1);
    let x2 = x1.wrapping_add(z1) >> 1u32;
    shr1_i32(x1.wrapping_add(z1));
    let z2 = z1.wrapping_sub(x2);
    let w2 = w1.wrapping_add(y1) >> 1u32;
    shr1_i32(w1.wrapping_add(y1));
    let y2 = y1.wrapping_sub(w2);
    shr1_i32(y2);
    let w3 = w2.wrapping_add(y2 >> 1u32);
    shr1_i32(w3);
    let y3 = y2.wrapping_sub(w3 >> 1u32);
}

/// On values within `e` of the forward step of values within `r` of zero,
/// the inverse step on `i32` does not wrap.
#[verifier::spinoff_prover]
#[verifier::rlimit(40)]
proof fn inv_lift_exact_i32(a: (i32, i32, i32, i32), v: (i32, i32, i32, i32), r: int, e: int)
    requires
        0 <= r <= 0x3fff_fff0,
        0 <= e <= 0x1000,
        abs_le(v.0 as int, r), abs_le(v.1 as int, r), abs_le(v.2 as int, r), abs_le(v.3 as int, r),
        abs_le(a.0 - fwd_lift_int(ints_i32(v)).0, e), abs_le(a.1 - fwd_lift_int(ints_i32(v)).1, e),
        abs_le(a.2 - fwd_lift_int(ints_i32(v)).2, e), abs_le(a.3 - fwd_lift_int(ints_i32(v)).3, e),
    ensures
        ints_i32(inv_lift_spec_i32(a)) == inv_lift_int(ints_i32(a)),
{
    inv_lift_int_partials(ints_i32(v), ints_i32(a), r, e);
    let (x, y, z, w) = a;
    shr1_i32(w);
    let y1 = y.wrapping_add(w >> 1u32);
    shr1_i32(y1);
    let w1 = w.wrapping_sub(y1 >> 1u32);
    let y2 = y1.wrapping_add(w1);
    let w2 = w1.wrapping_sub(y2.wrapping_sub(w1));
    let z1 = z.wrapping_add(x);
    let x1 = x.wrapping_sub(z1.wrapping_sub(x));
    let y3 = y2.wrapping_add(z1);
    let z2 = z1.wrapping_sub(y3.wrapping_sub(z1));
    let w3 = w2.wrapping_add(x1);
    let x2 = x1.wrapping_sub(w3.wrapping_sub(x1));
}

/// The inverse step on four values within `e` of the forward step of `v`
/// lands within `step_err(e)` of `v`.
#[verifier::spinoff_prover]
#[verifier::rlimit(40)]
proof fn lift_down_step_i32(v: (i32, i32, i32, i32), a: (i32, i32, i32, i32), r: int, e: int)
    requires
        0 <= r <= 0x3fff_fff0,
        0 <= e <= 0x1000,
        abs_le(v.0 as int, r), abs_le(v.1 as int, r), abs_le(v.2 as int, r), abs_le(v.3 as int, r),
        abs_le(a.0 - lift_spec_i32(LiftKind::Forward, v).0, e),
        abs_le(a.1 - lift_spec_i32(LiftKind::Forward, v).1, e),
        abs_le(a.2 - lift_spec_i32(LiftKind::Forward, v).2, e),
        abs_le(a.3 - lift_spec_i32(LiftKind::Forward, v).3, e),
    ensures
        ({
            let g = lift_spec_i32(LiftKind::Inverse, a);
            &&& abs_le(g.0 - v.0, step_err(e))
            &&& abs_le(g.1 - v.1, step_err(e))
            &&& abs_le(g.2 - v.2, step_err(e))
            &&& abs_le(g.3 - v.3, step_err(e))
        }),
{
    reveal(lift_spec_i32);
    fwd_lift_exact_i32(v);
    inv_lift_exact_i32(a, v, r, e);
    lift_int_down_step(ints_i32(v), ints_i32(a), e);
}

/// Every value of `p` lies within `r` of zero.
pub open spec fn within_i32(p: Seq<i32>, r: int) -> bool {
    forall|i: int| 0 <= i < p.len() ==> abs_le(#[trigger] p[i] as int, r)
}

/// `a` and `b` have the same length and differ by at most `e` at each index.
pub open spec fn close_i32(a: Seq<i32>, b: Seq<i32>, e: int) -> bool {
    &&& a.len() == b.len()
    &&& forall|i: int| 0 <= i < a.len() ==> abs_le(#[trigger] a[i] - b[i], e)
}

/// The start `b` of the line of stride `s` through index `i`, and what a
/// lifting step along that axis leaves on the line.
proof fn line_facts_i32(p: Seq<i32>, s: int, i: int) -> (b: int)
    requires
        s > 0,
        p.len() as int % (4 * s) == 0,
        0 <= i < p.len(),
    ensures
        0 <= b,
        b + 3 * s < p.len(),
        b == i - ((i / s) % 4) * s,
        0 <= (i / s) % 4 < 4,
        forall|kind: LiftKind| #[trigger] lift_axis_i32(p, s, kind)[b] == lift_spec_i32(kind, (p[b], p[b + s], p[b + 2 * s], p[b + 3 * s])).0,
        forall|kind: LiftKind| #[trigger] lift_axis_i32(p, s, kind)[b + s] == lift_spec_i32(kind, (p[b], p[b + s], p[b + 2 * s], p[b + 3 * s])).1,
        forall|kind: LiftKind| #[trigger] lift_axis_i32(p, s, kind)[b + 2 * s] == lift_spec_i32(kind, (p[b], p[b + s], p[b + 2 * s], p[b + 3 * s])).2,
        forall|kind: LiftKind| #[trigger] lift_axis_i32(p, s, kind)[b + 3 * s] == lift_spec_i32(kind, (p[b], p[b + s], p[b + 2 * s], p[b + 3 * s])).3,
{
    let n = p.len() as int;
    index_facts(i, s, n);
    let l = line_of(i, s);
    let b = i - ((i / s) % 4) * s;
    assert(b == line_index(l, s, 0));
    line_index_facts(l, s, 0, n);
    line_index_facts(l, s, 1, n);
    line_index_facts(l, s, 2, n);
    line_index_facts(l, s, 3, n);
    assert(line_index(l, s, 1) == b + s);
    assert(line_index(l, s, 2) == b + 2 * s);
    assert(line_index(l, s, 3) == b + 3 * s);
    b
}

/// The forward step along one axis keeps values within `r` of zero within `r + 2`.
proof fn axis_fwd_bound_i32(p: Seq<i32>, s: int, r: int)
    requires
        s > 0,
        p.len() as int % (4 * s) == 0,
        0 <= r <= 0x3fff_fff0,
        within_i32(p, r),
    ensures
        lift_axis_i32(p, s, LiftKind::Forward).len() == p.len(),
        within_i32(lift_axis_i32(p, s, LiftKind::Forward), r + 2),
{
    reveal(lift_spec_i32);
    let f = lift_axis_i32(p, s, LiftKind::Forward);
    assert forall|i: int| 0 <= i < f.len() implies abs_le(#[trigger] f[i] as int, r + 2) by {
        let b = line_facts_i32(p, s, i);
        let v = (p[b], p[b + s], p[b + 2 * s], p[b + 3 * s]);
        fwd_lift_exact_i32(v);
        fwd_lift_int_bound(ints_i32(v), r);
        let j = (i / s) % 4;
        assert(i == b + j * s);
        if j == 1 {
            assert(i == b + s);
        } else if j == 2 {
            assert(i == b + 2 * s);
        } else if j == 3 {
            assert(i == b + 3 * s);
        }
    }
}

/// Undoing one axis of a block `q` within `e` of the forward step along that
/// axis of `g` lands within `step_err(e)` of `g`.
proof fn axis_down_step_i32(q: Seq<i32>, g: Seq<i32>, s: int, r: int, e: int)
    requires
        s > 0,
        g.len() as int % (4 * s) == 0,
        0 <= r <= 0x3fff_fff0,
        0 <= e <= 0x1000,
        within_i32(g, r),
        close_i32(q, lift_axis_i32(g, s, LiftKind::Forward), e),
    ensures
        close_i32(lift_axis_i32(q, s, LiftKind::Inverse), g, step_err(e)),
{
    let f = lift_axis_i32(g, s, LiftKind::Forward);
    let h = lift_axis_i32(q, s, LiftKind::Inverse);
    assert forall|i: int| 0 <= i < h.len() implies abs_le(#[trigger] h[i] - g[i], step_err(e)) by {
        let b = line_facts_i32(g, s, i);
        let b2 = line_facts_i32(q, s, i);
        assert(b2 == b);
        let v = (g[b], g[b + s], g[b + 2 * s], g[b + 3 * s]);
        let a = (q[b], q[b + s], q[b + 2 * s], q[b + 3 * s]);
        let fv = lift_spec_i32(LiftKind::Forward, v);
        assert(f[b] == fv.0 && f[b + s] == fv.1 && f[b + 2 * s] == fv.2 && f[b + 3 * s] == fv.3);
        assert(abs_le(a.0 - fv.0, e) && abs_le(a.1 - fv.1, e) && abs_le(a.2 - fv.2, e) && abs_le(a.3 - fv.3, e));
        lift_down_step_i32(v, a, r, e);
        let j = (i / s) % 4;
        assert(i == b + j * s);
        if j == 1 {
            assert(i == b + s);
        } else if j == 2 {
            assert(i == b + 2 * s);
        } else if j == 3 {
            assert(i == b + 3 * s);
        }
    }
}

/// `k` forward steps along the first `k` axes keep values within `r` of zero
/// within `r + 2k`.
proof fn up_bound_i32(p: Seq<i32>, k: nat, r: int)
    requires
        p.len() as int % pow4(k) == 0,
        0 <= r,
        r + 2 * k <= 0x3fff_fff0,
        within_i32(p, r),
    ensures
        axes_up_i32(p, k, LiftKind::Forward).len() == p.len(),
        within_i32(axes_up_i32(p, k, LiftKind::Forward), r + 2 * k),
    decreases k,
{
    if k > 0 {
        let e = (k - 1) as nat;
        len_multiple(p.len() as int, k);
        pow4_positive(e);
        up_bound_i32(p, e, r);
        axis_fwd_bound_i32(axes_up_i32(p, e, LiftKind::Forward), pow4(e), r + 2 * e);
    }
}

/// Undoing the first `k` axes of a block `q` within `e` of the forward
/// transform of `p` lands within `err_after(k, e)` of `p`.
proof fn down_close_i32(p: Seq<i32>, k: nat, q: Seq<i32>, e: int)
    requires
        k <= 4,
        p.len() as int % pow4(k) == 0,
        within_i32(p, 0x3fff_ffc0),
        0 <= e,
        err_after(k, e) <= 0x1000,
        close_i32(q, axes_up_i32(p, k, LiftKind::Forward), e),
    ensures
        close_i32(crate::codec::transform::axes_down_i32(q, k, LiftKind::Inverse), p, err_after(k, e)),
    decreases k,
{
    if k > 0 {
        let j = (k - 1) as nat;
        let s = pow4(j);
        len_multiple(p.len() as int, k);
        pow4_positive(j);
        up_bound_i32(p, j, 0x3fff_ffc0);
        let g = axes_up_i32(p, j, LiftKind::Forward);
        assert(axes_up_i32(p, k, LiftKind::Forward) == lift_axis_i32(g, s, LiftKind::Forward));
        err_after_grows(k, e);
        err_after_grows(j, step_err(e));
        axis_down_step_i32(q, g, s, 0x3fff_ffc0 + 2 * (j as int), e);
        down_close_i32(p, j, lift_axis_i32(q, s, LiftKind::Inverse), step_err(e));
    }
}

/// The lossy inverse transform approximately undoes the lossy forward
/// transform: for every block of `4^d` values of `i32` within `2^30 - 64` of
/// zero, each value comes back within `lossy_xform_tolerance(d)` of where it
/// started.
pub proof fn lemma_lossy_xform_roundtrip_i32(p: Seq<i32>, d: nat)
    requires
        1 <= d <= 4,
        p.len() == pow4(d),
        within_i32(p, 0x3fff_ffc0),
    ensures
        close_i32(xform_spec_i32(xform_spec_i32(p, d, LiftKind::Forward), d, LiftKind::Inverse), p, lossy_xform_tolerance(d)),
{
    pow4_positive(d);
    div_mod_unique(pow4(d), pow4(d), 1, 0);
    reveal_with_fuel(err_after, 5);
    assert(err_after(d, 0) == lossy_xform_tolerance(d));
    down_close_i32(p, d, axes_up_i32(p, d, LiftKind::Forward), 0);
}

/// Lossy coding of a block of `i32` values within `2^30 - 64` of zero, at full
/// precision and with room for every bit plane, decodes each value to within
/// `lossy_xform_tolerance(d)` of where it started, reading back exactly the
/// bits that coding wrote.
pub proof fn lemma_lossy_int_block_close_i32(
    x: Seq<i32>,
    d: nat,
    minbits: u32,
    maxbits: u32,
    maxprec: u32,
    src: spec_fn(int) -> bool,
)
    requires
        1 <= d <= 4,
        x.len() == pow4n(d),
        within_i32(x, 0x3fff_ffc0),
        maxprec >= 32,
        maxbits >= 33 * 256,
        forall|t: int| 0 <= t < lossy_int_bits_i32(x, d, minbits, maxbits, maxprec).len() ==> src(t)
            == #[trigger] lossy_int_bits_i32(x, d, minbits, maxbits, maxprec)[t],
    ensures
        ({
            let dec = lossy_int_decode_i32(src, d, minbits, maxbits, maxprec);
            &&& close_i32(dec.0, x, lossy_xform_tolerance(d))
            &&& dec.1 == lossy_int_bits_i32(x, d, minbits, maxbits, maxprec).len()
        }),
{
    pow4_agrees(d);
    let y = xform_spec_i32(x, d, LiftKind::Forward);
    up_bound_i32(x, d, 0x3fff_ffc0);
    let u = fwd_order_spec_i32(y, d);
    let size = pow4n(d);
    let budget = coded_budget(maxbits, maxprec, size);
    let e = emb_encode(u, 32, budget, maxprec as int);
    crate::codec::embedded::lemma_emb_plane_bound(u, 32, budget, maxprec as int);
    assert(lowest_plane(32, maxprec as int) == 0);
    assert((32 - 0 + 1) * size - 1 <= 33 * 256 - 1) by (nonlinear_arith)
        requires
            size <= 256,
    ;
    assert(e.len() < budget);
    let all = lossy_int_bits_i32(x, d, minbits, maxbits, maxprec);
    assert(all == pad_bits(e, minbits as int));
    assert forall|t: int| 0 <= t < e.len() implies src(t) == #[trigger] e[t] by {
        assert(all[t] == e[t]);
        assert(src(t) == all[t]);
    }
    crate::codec::embedded::lemma_emb_roundtrip(u, 32, budget, maxprec as int, src);
    let dec = emb_decode(src, size, 32, budget, maxprec as int);
    crate::codec::embedded::lemma_dec_planes_len(src, Seq::new(size as nat, |j: int| 0u64), 32, 0, 0, budget, 0);
    assert forall|j: int| 0 <= j < u.len() implies #[trigger] dec.0[j] == u[j] by {
        assert forall|q: int| 0 <= q < 64 implies #[trigger] plane_bit(dec.0[j], q) == plane_bit(u[j], q) by {
            if q >= 32 {
                high_bits_zero(crate::codec::order::int2uint_spec_i32(y[perm(d)[j] as int]), q as u64);
            }
        }
        bits_ext(dec.0[j], u[j]);
    }
    assert(dec.0 =~= u);
    crate::codec::order::lemma_order_roundtrip(y, Seq::new(size as nat, |j: int| 0i64), d);
    lemma_lossy_xform_roundtrip_i32(x, d);
}

/// An arithmetic shift right by one halves, rounding down.
proof fn shr1_i64(a: i64)
    ensures
        (a >> 1u32) as int == a as int / 2,
{
    assert(2 * (a >> 1u32) <= a && a <= 2 * (a >> 1u32) + 1) by (bit_vector);
}

/// Four values of `i64` as unbounded integers.
pub open spec fn ints_i64(v: (i64, i64, i64, i64)) -> (int, int, int, int) {
    (v.0 as int, v.1 as int, v.2 as int, v.3 as int)
}

/// On values within `2^62 - 16` of zero, the forward step on `i64` does not wrap.
#[verifier::spinoff_prover]
#[verifier::rlimit(40)]
proof fn fwd_lift_exact_i64(v: (i64, i64, i64, i64))
    requires
        abs_le(v.0 as int, 0x3fff_ffff_ffff_fff0), abs_le(v.1 as int, 0x3fff_ffff_ffff_fff0),
        abs_le(v.2 as int, 0x3fff_ffff_ffff_fff0), abs_le(v.3 as int, 0x3fff_ffff_ffff_fff0),
    ensures
        ints_i64(fwd_lift_spec_i64(v)) == fwd_lift_int(ints_i64(v)),
{
    fwd_lift_int_partials(ints_i64(v), 0x3fff_ffff_ffff_fff0);
    let (x, y, z, w) = v;
    let x1 = x.wrapping_add(w) >> 1u32;
    shr1_i64(x.wrapping_add(w));
    let w1 = w.wrapping_sub(x1);
    let z1 = z.wrapping_add(y) >> 1u32;
    shr1_i64(z.wrapping_add(y));
    let y1 = y.wrapping_sub(z1);
    let x2 = x1.wrapping_add(z1) >> 1u32;
    shr1_i64(x1.wrapping_add(z1));
    let z2 = z1.wrapping_sub(x2);
    let w2 = w1.wrapping_add(y1) >> 1u32;
    shr1_i64(w1.wrapping_add(y1));
    let y2 = y1.wrapping_sub(w2);
    shr1_i64(y2);
    let w3 = w2.wrapping_add(y2 >> 1u32);
    shr1_i64(w3);
    let y3 = y2.wrapping_sub(w3 >> 1u32);
}

/// On values within `e` of the forward step of values within `r` of zero,
/// the inverse step on `i64` does not wrap.
#[verifier::spinoff_prover]
#[verifier::rlimit(40)]
proof fn inv_lift_exact_i64(a: (i64, i64, i64, i64), v: (i64, i64, i64, i64), r: int, e: int)
    requires
        0 <= r <= 0x3fff_ffff_ffff_fff0,
        0 <= e <= 0x1000,
        abs_le(v.0 as int, r), abs_le(v.1 as int, r), abs_le(v.2 as int, r), abs_le(v.3 as int, r),
        abs_le(a.0 - fwd_lift_int(ints_i64(v)).0, e), abs_le(a.1 - fwd_lift_int(ints_i64(v)).1, e),
        abs_le(a.2 - fwd_lift_int(ints_i64(v)).2, e), abs_le(a.3 - fwd_lift_int(ints_i64(v)).3, e),
    ensures
        ints_i64(inv_lift_spec_i64(a)) == inv_lift_int(ints_i64(a)),
{
    inv_lift_int_partials(ints_i64(v), ints_i64(a), r, e);
    let (x, y, z, w) = a;
    shr1_i64(w);
    let y1 = y.wrapping_add(w >> 1u32);
    shr1_i64(y1);
    let w1 = w.wrapping_sub(y1 >> 1u32);
    let y2 = y1.wrapping_add(w1);
    let w2 = w1.wrapping_sub(y2.wrapping_sub(w1));
    let z1 = z.wrapping_add(x);
    let x1 = x.wrapping_sub(z1.wrapping_sub(x));
    let y3 = y2.wrapping_add(z1);
    let z2 = z1.wrapping_sub(y3.wrapping_sub(z1));
    let w3 = w2.wrapping_add(x1);
    let x2 = x1.wrapping_sub(w3.wrapping_sub(x1));
}

/// The inverse step on four values within `e` of the forward step of `v`
/// lands within `step_err(e)` of `v`.
#[verifier::spinoff_prover]
#[verifier::rlimit(40)]
proof fn lift_down_step_i64(v: (i64, i64, i64, i64), a: (i64, i64, i64, i64), r: int, e: int)
    requires
        0 <= r <= 0x3fff_ffff_ffff_fff0,
        0 <= e <= 0x1000,
        abs_le(v.0 as int, r), abs_le(v.1 as int, r), abs_le(v.2 as int, r), abs_le(v.3 as int, r),
        abs_le(a.0 - lift_spec_i64(LiftKind::Forward, v).0, e),
        abs_le(a.1 - lift_spec_i64(LiftKind::Forward, v).1, e),
        abs_le(a.2 - lift_spec_i64(LiftKind::Forward, v).2, e),
        abs_le(a.3 - lift_spec_i64(LiftKind::Forward, v).3, e),
    ensures
        ({
            let g = lift_spec_i64(LiftKind::Inverse, a);
            &&& abs_le(g.0 - v.0, step_err(e))
            &&& abs_le(g.1 - v.1, step_err(e))
            &&& abs_le(g.2 - v.2, step_err(e))
            &&& abs_le(g.3 - v.3, step_err(e))
        }),
{
    reveal(lift_spec_i64);
    fwd_lift_exact_i64(v);
    inv_lift_exact_i64(a, v, r, e);
    lift_int_down_step(ints_i64(v), ints_i64(a), e);
}

/// Every value of `p` lies within `r` of zero.
pub open spec fn within_i64(p: Seq<i64>, r: int) -> bool {
    forall|i: int| 0 <= i < p.len() ==> abs_le(#[trigger] p[i] as int, r)
}

/// `a` and `b` have the same length and differ by at most `e` at each index.
pub open spec fn close_i64(a: Seq<i64>, b: Seq<i64>, e: int) -> bool {
    &&& a.len() == b.len()
    &&& forall|i: int| 0 <= i < a.len() ==> abs_le(#[trigger] a[i] - b[i], e)
}

/// The start `b` of the line of stride `s` through index `i`, and what a
/// lifting step along that axis leaves on the line.
proof fn line_facts_i64(p: Seq<i64>, s: int, i: int) -> (b: int)
    requires
        s > 0,
        p.len() as int % (4 * s) == 0,
        0 <= i < p.len(),
    ensures
        0 <= b,
        b + 3 * s < p.len(),
        b == i - ((i / s) % 4) * s,
        0 <= (i / s) % 4 < 4,
        forall|kind: LiftKind| #[trigger] lift_axis_i64(p, s, kind)[b] == lift_spec_i64(kind, (p[b], p[b + s], p[b + 2 * s], p[b + 3 * s])).0,
        forall|kind: LiftKind| #[trigger] lift_axis_i64(p, s, kind)[b + s] == lift_spec_i64(kind, (p[b], p[b + s], p[b + 2 * s], p[b + 3 * s])).1,
        forall|kind: LiftKind| #[trigger] lift_axis_i64(p, s, kind)[b + 2 * s] == lift_spec_i64(kind, (p[b], p[b + s], p[b + 2 * s], p[b + 3 * s])).2,
        forall|kind: LiftKind| #[trigger] lift_axis_i64(p, s, kind)[b + 3 * s] == lift_spec_i64(kind, (p[b], p[b + s], p[b + 2 * s], p[b + 3 * s])).3,
{
    let n = p.len() as int;
    index_facts(i, s, n);
    let l = line_of(i, s);
    let b = i - ((i / s) % 4) * s;
    assert(b == line_index(l, s, 0));
    line_index_facts(l, s, 0, n);
    line_index_facts(l, s, 1, n);
    line_index_facts(l, s, 2, n);
    line_index_facts(l, s, 3, n);
    assert(line_index(l, s, 1) == b + s);
    assert(line_index(l, s, 2) == b + 2 * s);
    assert(line_index(l, s, 3) == b + 3 * s);
    b
}

/// The forward step along one axis keeps values within `r` of zero within `r + 2`.
proof fn axis_fwd_bound_i64(p: Seq<i64>, s: int, r: int)
    requires
        s > 0,
        p.len() as int % (4 * s) == 0,
        0 <= r <= 0x3fff_ffff_ffff_fff0,
        within_i64(p, r),
    ensures
        lift_axis_i64(p, s, LiftKind::Forward).len() == p.len(),
        within_i64(lift_axis_i64(p, s, LiftKind::Forward), r + 2),
{
    reveal(lift_spec_i64);
    let f = lift_axis_i64(p, s, LiftKind::Forward);
    assert forall|i: int| 0 <= i < f.len() implies abs_le(#[trigger] f[i] as int, r + 2) by {
        let b = line_facts_i64(p, s, i);
        let v = (p[b], p[b + s], p[b + 2 * s], p[b + 3 * s]);
        fwd_lift_exact_i64(v);
        fwd_lift_int_bound(ints_i64(v), r);
        let j = (i / s) % 4;
        assert(i == b + j * s);
        if j == 1 {
            assert(i == b + s);
        } else if j == 2 {
            assert(i == b + 2 * s);
        } else if j == 3 {
            assert(i == b + 3 * s);
        }
    }
}

/// Undoing one axis of a block `q` within `e` of the forward step along that
/// axis of `g` lands within `step_err(e)` of `g`.
proof fn axis_down_step_i64(q: Seq<i64>, g: Seq<i64>, s: int, r: int, e: int)
    requires
        s > 0,
        g.len() as int % (4 * s) == 0,
        0 <= r <= 0x3fff_ffff_ffff_fff0,
        0 <= e <= 0x1000,
        within_i64(g, r),
        close_i64(q, lift_axis_i64(g, s, LiftKind::Forward), e),
    ensures
        close_i64(lift_axis_i64(q, s, LiftKind::Inverse), g, step_err(e)),
{
    let f = lift_axis_i64(g, s, LiftKind::Forward);
    let h = lift_axis_i64(q, s, LiftKind::Inverse);
    assert forall|i: int| 0 <= i < h.len() implies abs_le(#[trigger] h[i] - g[i], step_err(e)) by {
        let b = line_facts_i64(g, s, i);
        let b2 = line_facts_i64(q, s, i);
        assert(b2 == b);
        let v = (g[b], g[b + s], g[b + 2 * s], g[b + 3 * s]);
        let a = (q[b], q[b + s], q[b + 2 * s], q[b + 3 * s]);
        let fv = lift_spec_i64(LiftKind::Forward, v);
        assert(f[b] == fv.0 && f[b + s] == fv.1 && f[b + 2 * s] == fv.2 && f[b + 3 * s] == fv.3);
        assert(abs_le(a.0 - fv.0, e) && abs_le(a.1 - fv.1, e) && abs_le(a.2 - fv.2, e) && abs_le(a.3 - fv.3, e));
        lift_down_step_i64(v, a, r, e);
        let j = (i / s) % 4;
        assert(i == b + j * s);
        if j == 1 {
            assert(i == b + s);
        } else if j == 2 {
            assert(i == b + 2 * s);
        } else if j == 3 {
            assert(i == b + 3 * s);
        }
    }
}

/// `k` forward steps along the first `k` axes keep values within `r` of zero
/// within `r + 2k`.
proof fn up_bound_i64(p: Seq<i64>, k: nat, r: int)
    requires
        p.len() as int % pow4(k) == 0,
        0 <= r,
        r + 2 * k <= 0x3fff_ffff_ffff_fff0,
        within_i64(p, r),
    ensures
        axes_up_i64(p, k, LiftKind::Forward).len() == p.len(),
        within_i64(axes_up_i64(p, k, LiftKind::Forward), r + 2 * k),
    decreases k,
{
    if k > 0 {
        let e = (k - 1) as nat;
        len_multiple(p.len() as int, k);
        pow4_positive(e);
        up_bound_i64(p, e, r);
        axis_fwd_bound_i64(axes_up_i64(p, e, LiftKind::Forward), pow4(e), r + 2 * e);
    }
}

/// Undoing the first `k` axes of a block `q` within `e` of the forward
/// transform of `p` lands within `err_after(k, e)` of `p`.
proof fn down_close_i64(p: Seq<i64>, k: nat, q: Seq<i64>, e: int)
    requires
        k <= 4,
        p.len() as int % pow4(k) == 0,
        within_i64(p, 0x3fff_ffff_ffff_ffc0),
        0 <= e,
        err_after(k, e) <= 0x1000,
        close_i64(q, axes_up_i64(p, k, LiftKind::Forward), e),
    ensures
        close_i64(crate::codec::transform::axes_down_i64(q, k, LiftKind::Inverse), p, err_after(k, e)),
    decreases k,
{
    if k > 0 {
        let j = (k - 1) as nat;
        let s = pow4(j);
        len_multiple(p.len() as int, k);
        pow4_positive(j);
        up_bound_i64(p, j, 0x3fff_ffff_ffff_ffc0);
        let g = axes_up_i64(p, j, LiftKind::Forward);
        assert(axes_up_i64(p, k, LiftKind::Forward) == lift_axis_i64(g, s, LiftKind::Forward));
        err_after_grows(k, e);
        err_after_grows(j, step_err(e));
        axis_down_step_i64(q, g, s, 0x3fff_ffff_ffff_ffc0 + 2 * (j as int), e);
        down_close_i64(p, j, lift_axis_i64(q, s, LiftKind::Inverse), step_err(e));
    }
}

/// The lossy inverse transform approximately undoes the lossy forward
/// transform: for every block of `4^d` values of `i64` within `2^62 - 64` of
/// zero, each value comes back within `lossy_xform_tolerance(d)` of where it
/// started.
pub proof fn lemma_lossy_xform_roundtrip_i64(p: Seq<i64>, d: nat)
    requires
        1 <= d <= 4,
        p.len() == pow4(d),
        within_i64(p, 0x3fff_ffff_ffff_ffc0),
    ensures
        close_i64(xform_spec_i64(xform_spec_i64(p, d, LiftKind::Forward), d, LiftKind::Inverse), p, lossy_xform_tolerance(d)),
{
    pow4_positive(d);
    div_mod_unique(pow4(d), pow4(d), 1, 0);
    reveal_with_fuel(err_after, 5);
    assert(err_after(d, 0) == lossy_xform_tolerance(d));
    down_close_i64(p, d, axes_up_i64(p, d, LiftKind::Forward), 0);
}

/// Lossy coding of a block of `i64` values within `2^62 - 64` of zero, at full
/// precision and with room for every bit plane, decodes each value to within
/// `lossy_xform_tolerance(d)` of where it started, reading back exactly the
/// bits that coding wrote.
pub proof fn lemma_lossy_int_block_close_i64(
    x: Seq<i64>,
    d: nat,
    minbits: u32,
    maxbits: u32,
    maxprec: u32,
    src: spec_fn(int) -> bool,
)
    requires
        1 <= d <= 4,
        x.len() == pow4n(d),
        within_i64(x, 0x3fff_ffff_ffff_ffc0),
        maxprec >= 64,
        maxbits >= 65 * 256,
        forall|t: int| 0 <= t < lossy_int_bits_i64(x, d, minbits, maxbits, maxprec).len() ==> src(t)
            == #[trigger] lossy_int_bits_i64(x, d, minbits, maxbits, maxprec)[t],
    ensures
        ({
            let dec = lossy_int_decode_i64(src, d, minbits, maxbits, maxprec);
            &&& close_i64(dec.0, x, lossy_xform_tolerance(d))
            &&& dec.1 == lossy_int_bits_i64(x, d, minbits, maxbits, maxprec).len()
        }),
{
    pow4_agrees(d);
    let y = xform_spec_i64(x, d, LiftKind::Forward);
    up_bound_i64(x, d, 0x3fff_ffff_ffff_ffc0);
    let u = fwd_order_spec_i64(y, d);
    let size = pow4n(d);
    let budget = coded_budget(maxbits, maxprec, size);
    let e = emb_encode(u, 64, budget, maxprec as int);
    crate::codec::embedded::lemma_emb_plane_bound(u, 64, budget, maxprec as int);
    assert(lowest_plane(64, maxprec as int) == 0);
    assert((64 - 0 + 1) * size - 1 <= 65 * 256 - 1) by (nonlinear_arith)
        requires
            size <= 256,
    ;
    assert(e.len() < budget);
    let all = lossy_int_bits_i64(x, d, minbits, maxbits, maxprec);
    assert(all == pad_bits(e, minbits as int));
    assert forall|t: int| 0 <= t < e.len() implies src(t) == #[trigger] e[t] by {
        assert(all[t] == e[t]);
        assert(src(t) == all[t]);
    }
    crate::codec::embedded::lemma_emb_roundtrip(u, 64, budget, maxprec as int, src);
    let dec = emb_decode(src, size, 64, budget, maxprec as int);
    crate::codec::embedded::lemma_dec_planes_len(src, Seq::new(size as nat, |j: int| 0u64), 64, 0, 0, budget, 0);
    assert forall|j: int| 0 <= j < u.len() implies #[trigger] dec.0[j] == u[j] by {
        assert forall|q: int| 0 <= q < 64 implies #[trigger] plane_bit(dec.0[j], q) == plane_bit(u[j], q) by {
        }
        bits_ext(dec.0[j], u[j]);
    }
    assert(dec.0 =~= u);
    crate::codec::order::lemma_order_roundtrip(Seq::new(size as nat, |j: int| 0i32), y, d);
    lemma_lossy_xform_roundtrip_i64(x, d);
}

} // verus!
