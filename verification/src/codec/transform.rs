//! The decorrelating transforms of a block: lifting steps along each axis.
//!
//! A block of `4^d` values is laid out with the first axis varying fastest,
//! so the axis `a` has stride `4^a`. A transform runs one lifting step on
//! every line of four values along each axis in turn. The lossy transforms
//! are near-orthogonal; the reversible ones are exact differences and sums
//! in wrapping arithmetic, so the reversible inverse undoes the reversible
//! forward transform.

use vstd::prelude::*;

verus! {

/// Which lifting step to run.
#[derive(Clone, Copy, PartialEq, Eq, Structural)]
pub enum LiftKind {
    Forward,
    Inverse,
    ReversibleForward,
    ReversibleInverse,
}

/// `4^d`.
pub open spec fn pow4(d: nat) -> int
    decreases d,
{
    if d == 0 {
        1
    } else {
        4 * pow4((d - 1) as nat)
    }
}

pub(crate) proof fn pow4_positive(d: nat)
    ensures
        pow4(d) > 0,
    decreases d,
{
    if d > 0 {
        pow4_positive((d - 1) as nat);
    }
}

/// The number of the line of stride `s` that holds index `i`.
pub open spec fn line_of(i: int, s: int) -> int {
    (i / (4 * s)) * s + i % s
}

/// The index of element `k` of line `l` of stride `s`.
pub open spec fn line_index(l: int, s: int, k: int) -> int {
    (l / s) * (4 * s) + l % s + k * s
}

pub(crate) proof fn div_mod_unique(x: int, d: int, q: int, r: int)
    requires
        d > 0,
        0 <= r < d,
        x == q * d + r,
    ensures
        x / d == q,
        x % d == r,
{
    vstd::arithmetic::div_mod::lemma_fundamental_div_mod_converse(x, d, q, r);
}

pub(crate) proof fn div_mod_parts(x: int, d: int)
    requires
        d > 0,
        x >= 0,
    ensures
        x == (x / d) * d + x % d,
        0 <= x % d < d,
        x / d >= 0,
{
    vstd::arithmetic::div_mod::lemma_fundamental_div_mod(x, d);
    vstd::arithmetic::div_mod::lemma_mod_pos_bound(x, d);
    vstd::arithmetic::div_mod::lemma_div_pos_is_pos(x, d);
    assert((x / d) * d == d * (x / d)) by (nonlinear_arith);
}

/// Element `k` of line `l` of stride `s` lies on that line, at position `k`.
pub(crate) proof fn line_index_facts(l: int, s: int, k: int, n: int)
    requires
        s > 0,
        n % (4 * s) == 0,
        0 <= l < n / 4,
        0 <= k < 4,
    ensures
        line_index(l, s, k) < n,
        line_of(line_index(l, s, k), s) == l,
        (line_index(l, s, k) / s) % 4 == k,
        line_index(l, s, k) - k * s == line_index(l, s, 0),
        line_index(l, s, k) >= 0,
{
    let q = l / s;
    let r = l % s;
    div_mod_parts(l, s);
    let i = line_index(l, s, k);
    assert(i == (4 * q + k) * s + r) by (nonlinear_arith)
        requires
            i == q * (4 * s) + r + k * s,
    ;
    div_mod_unique(i, s, 4 * q + k, r);
    div_mod_unique(4 * q + k, 4, q, k);
    assert(i == q * (4 * s) + (k * s + r)) by (nonlinear_arith)
        requires
            i == q * (4 * s) + r + k * s,
    ;
    assert(0 <= k * s + r < 4 * s) by (nonlinear_arith)
        requires
            0 <= k < 4,
            0 <= r < s,
    ;
    div_mod_unique(i, 4 * s, q, k * s + r);
    assert(q * s >= 0) by (nonlinear_arith)
        requires
            q >= 0,
            s > 0,
    ;
    assert(k * s >= 0) by (nonlinear_arith)
        requires
            k >= 0,
            s > 0,
    ;
    let m = n / (4 * s);
    div_mod_parts(n, 4 * s);
    assert(n / 4 == m * s) by (nonlinear_arith)
        requires
            n == m * (4 * s),
    ;
    assert(q < m) by (nonlinear_arith)
        requires
            l == q * s + r,
            r >= 0,
            l < m * s,
            s > 0,
    ;
    assert((m - q) * (4 * s) >= 4 * s) by (nonlinear_arith)
        requires
            q < m,
            s > 0,
    ;
    assert(i < n) by (nonlinear_arith)
        requires
            i == q * (4 * s) + (k * s + r),
            k * s + r < 4 * s,
            (m - q) * (4 * s) >= 4 * s,
            n == m * (4 * s),
    ;
}

/// Every index lies on a line, and the line's elements stay inside a block
/// whose length is a multiple of `4s`.
pub(crate) proof fn index_facts(i: int, s: int, n: int)
    requires
        s > 0,
        n % (4 * s) == 0,
        0 <= i < n,
    ensures
        line_index(line_of(i, s), s, (i / s) % 4) == i,
        0 <= (i / s) % 4 < 4,
        0 <= line_of(i, s) < n / 4,
        line_index(line_of(i, s), s, 0) == i - ((i / s) % 4) * s,
        line_index(line_of(i, s), s, 0) + 3 * s < n,
{
    let q = i / (4 * s);
    let rem = i % (4 * s);
    div_mod_parts(i, 4 * s);
    let j = rem / s;
    let r = rem % s;
    div_mod_parts(rem, s);
    assert(j < 4) by (nonlinear_arith)
        requires
            rem == j * s + r,
            0 <= r < s,
            rem < 4 * s,
            j >= 0,
    ;
    assert(i == (4 * q + j) * s + r) by (nonlinear_arith)
        requires
            i == q * (4 * s) + rem,
            rem == j * s + r,
    ;
    div_mod_unique(i, s, 4 * q + j, r);
    div_mod_unique(4 * q + j, 4, q, j);
    let l = line_of(i, s);
    assert(l == q * s + r);
    div_mod_unique(l, s, q, r);
    assert(line_index(l, s, j) == i) by (nonlinear_arith)
        requires
            line_index(l, s, j) == q * (4 * s) + r + j * s,
            i == q * (4 * s) + rem,
            rem == j * s + r,
    ;
    let m = n / (4 * s);
    div_mod_parts(n, 4 * s);
    assert(q < m) by (nonlinear_arith)
        requires
            i == q * (4 * s) + rem,
            rem >= 0,
            i < n,
            n == m * (4 * s),
            s > 0,
    ;
    assert(q * (4 * s) + 4 * s <= n) by (nonlinear_arith)
        requires
            q < m,
            n == m * (4 * s),
            s > 0,
    ;
    assert(l < n / 4) by (nonlinear_arith)
        requires
            l == q * s + r,
            r < s,
            q * (4 * s) + 4 * s <= n,
            s > 0,
    ;
    assert(l >= 0) by (nonlinear_arith)
        requires
            l == q * s + r,
            r >= 0,
            q >= 0,
            s > 0,
    ;
}

/// What the forward lifting step makes of four values `(x, y, z, w)`.
pub open spec fn fwd_lift_spec_i32(v: (i32, i32, i32, i32)) -> (i32, i32, i32, i32) {
    let (x, y, z, w) = v;
    let x = x.wrapping_add(w) >> 1u32;
    let w = w.wrapping_sub(x);
    let z = z.wrapping_add(y) >> 1u32;
    let y = y.wrapping_sub(z);
    let x = x.wrapping_add(z) >> 1u32;
    let z = z.wrapping_sub(x);
    let w = w.wrapping_add(y) >> 1u32;
    let y = y.wrapping_sub(w);
    let w = w.wrapping_add(y >> 1u32);
    let y = y.wrapping_sub(w >> 1u32);
    (x, y, z, w)
}

/// What the inverse lifting step makes of four values `(x, y, z, w)`.
pub open spec fn inv_lift_spec_i32(v: (i32, i32, i32, i32)) -> (i32, i32, i32, i32) {
    let (x, y, z, w) = v;
    let y = y.wrapping_add(w >> 1u32);
    let w = w.wrapping_sub(y >> 1u32);
    let y = y.wrapping_add(w);
    let w = w.wrapping_sub(y.wrapping_sub(w));
    let z = z.wrapping_add(x);
    let x = x.wrapping_sub(z.wrapping_sub(x));
    let y = y.wrapping_add(z);
    let z = z.wrapping_sub(y.wrapping_sub(z));
    let w = w.wrapping_add(x);
    let x = x.wrapping_sub(w.wrapping_sub(x));
    (x, y, z, w)
}

/// What the reversible forward lifting step makes of four values: the
/// differences `y - x`, then second and third differences, modulo the word size.
pub open spec fn rev_fwd_lift_spec_i32(v: (i32, i32, i32, i32)) -> (i32, i32, i32, i32) {
    let (x, y, z, w) = (v.0 as u32, v.1 as u32, v.2 as u32, v.3 as u32);
    let w = w.wrapping_sub(z);
    let z = z.wrapping_sub(y);
    let y = y.wrapping_sub(x);
    let w = w.wrapping_sub(z);
    let z = z.wrapping_sub(y);
    let w = w.wrapping_sub(z);
    (x as i32, y as i32, z as i32, w as i32)
}

/// What the reversible inverse lifting step makes of four values: the running
/// sums that undo [`rev_fwd_lift_spec_i32`].
pub open spec fn rev_inv_lift_spec_i32(v: (i32, i32, i32, i32)) -> (i32, i32, i32, i32) {
    let (x, y, z, w) = (v.0 as u32, v.1 as u32, v.2 as u32, v.3 as u32);
    let w = w.wrapping_add(z);
    let z = z.wrapping_add(y);
    let w = w.wrapping_add(z);
    let y = y.wrapping_add(x);
    let z = z.wrapping_add(y);
    let w = w.wrapping_add(z);
    (x as i32, y as i32, z as i32, w as i32)
}

/// The lifting step of kind `kind` on four values.
#[verifier::opaque]
pub open spec fn lift_spec_i32(kind: LiftKind, v: (i32, i32, i32, i32)) -> (i32, i32, i32, i32) {
    match kind {
        LiftKind::Forward => fwd_lift_spec_i32(v),
        LiftKind::Inverse => inv_lift_spec_i32(v),
        LiftKind::ReversibleForward => rev_fwd_lift_spec_i32(v),
        LiftKind::ReversibleInverse => rev_inv_lift_spec_i32(v),
    }
}

/// `p` after a lifting step of kind `kind` on `p[0]`, `p[s]`, `p[2s]`, `p[3s]`
/// (the four results stored in that order).
pub open spec fn lift_at_i32(p: Seq<i32>, s: int, kind: LiftKind) -> Seq<i32> {
    let r = lift_spec_i32(kind, (p[0], p[s], p[2 * s], p[3 * s]));
    p.update(0, r.0).update(s, r.1).update(2 * s, r.2).update(3 * s, r.3)
}

/// Element `i` of `p` after the lifting step of kind `kind` has been applied to
/// every line of four elements with stride `s`.
pub open spec fn lift_axis_elem_i32(p: Seq<i32>, s: int, kind: LiftKind, i: int) -> i32 {
    let j = (i / s) % 4;
    let b = i - j * s;
    let r = lift_spec_i32(kind, (p[b], p[b + s], p[b + 2 * s], p[b + 3 * s]));
    if j == 0 {
        r.0
    } else if j == 1 {
        r.1
    } else if j == 2 {
        r.2
    } else {
        r.3
    }
}

/// `p` after the lifting step of kind `kind` along the axis of stride `s`.
pub open spec fn lift_axis_i32(p: Seq<i32>, s: int, kind: LiftKind) -> Seq<i32> {
    Seq::new(p.len(), |i: int| lift_axis_elem_i32(p, s, kind, i))
}

/// The axes of stride `1, 4, .., 4^(d-1)` transformed in that order.
pub open spec fn axes_up_i32(p: Seq<i32>, d: nat, kind: LiftKind) -> Seq<i32>
    decreases d,
{
    if d == 0 {
        p
    } else {
        lift_axis_i32(axes_up_i32(p, (d - 1) as nat, kind), pow4((d - 1) as nat), kind)
    }
}

/// The axes of stride `4^(d-1), .., 4, 1` transformed in that order.
pub open spec fn axes_down_i32(p: Seq<i32>, d: nat, kind: LiftKind) -> Seq<i32>
    decreases d,
{
    if d == 0 {
        p
    } else {
        axes_down_i32(lift_axis_i32(p, pow4((d - 1) as nat), kind), (d - 1) as nat, kind)
    }
}

/// The `d`-dimensional transform of kind `kind`: forward kinds go along the
/// axes from the fastest-varying one up, inverse kinds in the opposite order.
pub open spec fn xform_spec_i32(p: Seq<i32>, d: nat, kind: LiftKind) -> Seq<i32> {
    match kind {
        LiftKind::Forward | LiftKind::ReversibleForward => axes_up_i32(p, d, kind),
        _ => axes_down_i32(p, d, kind),
    }
}

/// Run the lifting step of kind `kind` on `p[0]`, `p[s]`, `p[2s]`, `p[3s]`.
fn lift_i32(p: &mut [i32], s: usize, kind: LiftKind)
    requires
        3 * s < old(p)@.len(),
    ensures
        final(p)@ == lift_at_i32(old(p)@, s as int, kind),
{
    reveal(lift_spec_i32);
    let x = p[0];
    let y = p[s];
    let z = p[2 * s];
    let w = p[3 * s];
    let r = match kind {
        LiftKind::Forward => {
            let x = x.wrapping_add(w) >> 1u32;
            let w = w.wrapping_sub(x);
            let z = z.wrapping_add(y) >> 1u32;
            let y = y.wrapping_sub(z);
            let x = x.wrapping_add(z) >> 1u32;
            let z = z.wrapping_sub(x);
            let w = w.wrapping_add(y) >> 1u32;
            let y = y.wrapping_sub(w);
            let w = w.wrapping_add(y >> 1u32);
            let y = y.wrapping_sub(w >> 1u32);
            (x, y, z, w)
        },
        LiftKind::Inverse => {
            let y = y.wrapping_add(w >> 1u32);
            let w = w.wrapping_sub(y >> 1u32);
            let y = y.wrapping_add(w);
            let w = w.wrapping_sub(y.wrapping_sub(w));
            let z = z.wrapping_add(x);
            let x = x.wrapping_sub(z.wrapping_sub(x));
            let y = y.wrapping_add(z);
            let z = z.wrapping_sub(y.wrapping_sub(z));
            let w = w.wrapping_add(x);
            let x = x.wrapping_sub(w.wrapping_sub(x));
            (x, y, z, w)
        },
        LiftKind::ReversibleForward => {
            let (x, y, z, w) = (x as u32, y as u32, z as u32, w as u32);
            let w = w.wrapping_sub(z);
            let z = z.wrapping_sub(y);
            let y = y.wrapping_sub(x);
            let w = w.wrapping_sub(z);
            let z = z.wrapping_sub(y);
            let w = w.wrapping_sub(z);
            (x as i32, y as i32, z as i32, w as i32)
        },
        LiftKind::ReversibleInverse => {
            let (x, y, z, w) = (x as u32, y as u32, z as u32, w as u32);
            let w = w.wrapping_add(z);
            let z = z.wrapping_add(y);
            let w = w.wrapping_add(z);
            let y = y.wrapping_add(x);
            let z = z.wrapping_add(y);
            let w = w.wrapping_add(z);
            (x as i32, y as i32, z as i32, w as i32)
        },
    };
    p[0] = r.0;
    p[s] = r.1;
    p[2 * s] = r.2;
    p[3 * s] = r.3;
}

/// Running the lifting step on line `l` extends the lines already done by one.
proof fn axis_step_i32(p0: Seq<i32>, before: Seq<i32>, after: Seq<i32>, l: int, s: int, n: int, kind: LiftKind)
    requires
        s > 0,
        n % (4 * s) == 0,
        0 <= l < n / 4,
        p0.len() == n,
        before.len() == n,
        forall|i: int|
            0 <= i < n ==> #[trigger] before[i] == (if line_of(i, s) < l {
                lift_axis_elem_i32(p0, s, kind, i)
            } else {
                p0[i]
            }),
        ({
            let b = line_index(l, s, 0);
            let r = lift_spec_i32(kind, (before[b], before[b + s], before[b + 2 * s], before[b + 3 * s]));
            after == before.update(b, r.0).update(b + s, r.1).update(b + 2 * s, r.2).update(b + 3 * s, r.3)
        }),
    ensures
        forall|i: int|
            0 <= i < n ==> #[trigger] after[i] == (if line_of(i, s) < l + 1 {
                lift_axis_elem_i32(p0, s, kind, i)
            } else {
                p0[i]
            }),
{
    line_index_facts(l, s, 0, n);
    line_index_facts(l, s, 1, n);
    line_index_facts(l, s, 2, n);
    line_index_facts(l, s, 3, n);
    let b = line_index(l, s, 0);
    assert(line_index(l, s, 1) == b + s);
    assert(line_index(l, s, 2) == b + 2 * s);
    assert(line_index(l, s, 3) == b + 3 * s);
    assert(before[b] == p0[b]);
    assert(before[b + s] == p0[b + s]);
    assert(before[b + 2 * s] == p0[b + 2 * s]);
    assert(before[b + 3 * s] == p0[b + 3 * s]);
    assert forall|i: int| 0 <= i < n implies #[trigger] after[i] == (if line_of(i, s) < l + 1 {
        lift_axis_elem_i32(p0, s, kind, i)
    } else {
        p0[i]
    }) by {
        index_facts(i, s, n);
        let j = (i / s) % 4;
        if line_of(i, s) == l {
            assert(line_index(l, s, j) == i);
            assert(i - j * s == b);
        } else {
            if i == b || i == b + s || i == b + 2 * s || i == b + 3 * s {
                assert(false);
            }
        }
    }
}

/// Run the lifting step of kind `kind` on every line of four elements with
/// stride `s`.
fn lift_axis_exec_i32(p: &mut [i32], s: usize, kind: LiftKind)
    requires
        s == 1 || s == 4 || s == 16 || s == 64,
        old(p)@.len() as int % (4 * s as int) == 0,
        old(p)@.len() <= 256,
    ensures
        final(p)@ == lift_axis_i32(old(p)@, s as int, kind),
{
    let n = p.len();
    let lines = n / 4;
    let ghost p0 = p@;
    let mut l: usize = 0;
    while l < lines
        invariant
            s == 1 || s == 4 || s == 16 || s == 64,
            n == p0.len(),
            n as int % (4 * s as int) == 0,
            n <= 256,
            lines == n / 4,
            l <= lines,
            p@.len() == n,
            forall|i: int|
                0 <= i < n ==> #[trigger] p@[i] == (if line_of(i, s as int) < l {
                    lift_axis_elem_i32(p0, s as int, kind, i)
                } else {
                    p0[i]
                }),
        decreases lines - l,
    {
        proof {
            line_index_facts(l as int, s as int, 0, n as int);
            line_index_facts(l as int, s as int, 1, n as int);
            line_index_facts(l as int, s as int, 2, n as int);
            line_index_facts(l as int, s as int, 3, n as int);
            assert((l / s) * (4 * s) <= line_index(l as int, s as int, 0));
        }
        let base = (l / s) * (4 * s) + l % s;
        let ghost before = p@;
        let mut line = [p[base], p[base + s], p[base + 2 * s], p[base + 3 * s]];
        lift_i32(&mut line, 1, kind);
        p[base] = line[0];
        p[base + s] = line[1];
        p[base + 2 * s] = line[2];
        p[base + 3 * s] = line[3];
        proof {
            axis_step_i32(p0, before, p@, l as int, s as int, n as int, kind);
        }
        l = l + 1;
    }
    proof {
        assert forall|i: int| 0 <= i < n implies line_of(i, s as int) < lines by {
            index_facts(i, s as int, n as int);
        }
        assert(p@ =~= lift_axis_i32(p0, s as int, kind));
    }
}

/// What the forward lifting step makes of four values `(x, y, z, w)`.
pub open spec fn fwd_lift_spec_i64(v: (i64, i64, i64, i64)) -> (i64, i64, i64, i64) {
    let (x, y, z, w) = v;
    let x = x.wrapping_add(w) >> 1u32;
    let w = w.wrapping_sub(x);
    let z = z.wrapping_add(y) >> 1u32;
    let y = y.wrapping_sub(z);
    let x = x.wrapping_add(z) >> 1u32;
    let z = z.wrapping_sub(x);
    let w = w.wrapping_add(y) >> 1u32;
    let y = y.wrapping_sub(w);
    let w = w.wrapping_add(y >> 1u32);
    let y = y.wrapping_sub(w >> 1u32);
    (x, y, z, w)
}

/// What the inverse lifting step makes of four values `(x, y, z, w)`.
pub open spec fn inv_lift_spec_i64(v: (i64, i64, i64, i64)) -> (i64, i64, i64, i64) {
    let (x, y, z, w) = v;
    let y = y.wrapping_add(w >> 1u32);
    let w = w.wrapping_sub(y >> 1u32);
    let y = y.wrapping_add(w);
    let w = w.wrapping_sub(y.wrapping_sub(w));
    let z = z.wrapping_add(x);
    let x = x.wrapping_sub(z.wrapping_sub(x));
    let y = y.wrapping_add(z);
    let z = z.wrapping_sub(y.wrapping_sub(z));
    let w = w.wrapping_add(x);
    let x = x.wrapping_sub(w.wrapping_sub(x));
    (x, y, z, w)
}

/// What the reversible forward lifting step makes of four values: the
/// differences `y - x`, then second and third differences, modulo the word size.
pub open spec fn rev_fwd_lift_spec_i64(v: (i64, i64, i64, i64)) -> (i64, i64, i64, i64) {
    let (x, y, z, w) = (v.0 as u64, v.1 as u64, v.2 as u64, v.3 as u64);
    let w = w.wrapping_sub(z);
    let z = z.wrapping_sub(y);
    let y = y.wrapping_sub(x);
    let w = w.wrapping_sub(z);
    let z = z.wrapping_sub(y);
    let w = w.wrapping_sub(z);
    (x as i64, y as i64, z as i64, w as i64)
}

/// What the reversible inverse lifting step makes of four values: the running
/// sums that undo [`rev_fwd_lift_spec_i64`].
pub open spec fn rev_inv_lift_spec_i64(v: (i64, i64, i64, i64)) -> (i64, i64, i64, i64) {
    let (x, y, z, w) = (v.0 as u64, v.1 as u64, v.2 as u64, v.3 as u64);
    let w = w.wrapping_add(z);
    let z = z.wrapping_add(y);
    let w = w.wrapping_add(z);
    let y = y.wrapping_add(x);
    let z = z.wrapping_add(y);
    let w = w.wrapping_add(z);
    (x as i64, y as i64, z as i64, w as i64)
}

/// The lifting step of kind `kind` on four values.
#[verifier::opaque]
pub open spec fn lift_spec_i64(kind: LiftKind, v: (i64, i64, i64, i64)) -> (i64, i64, i64, i64) {
    match kind {
        LiftKind::Forward => fwd_lift_spec_i64(v),
        LiftKind::Inverse => inv_lift_spec_i64(v),
        LiftKind::ReversibleForward => rev_fwd_lift_spec_i64(v),
        LiftKind::ReversibleInverse => rev_inv_lift_spec_i64(v),
    }
}

/// `p` after a lifting step of kind `kind` on `p[0]`, `p[s]`, `p[2s]`, `p[3s]`
/// (the four results stored in that order).
pub open spec fn lift_at_i64(p: Seq<i64>, s: int, kind: LiftKind) -> Seq<i64> {
    let r = lift_spec_i64(kind, (p[0], p[s], p[2 * s], p[3 * s]));
    p.update(0, r.0).update(s, r.1).update(2 * s, r.2).update(3 * s, r.3)
}

/// Element `i` of `p` after the lifting step of kind `kind` has been applied to
/// every line of four elements with stride `s`.
pub open spec fn lift_axis_elem_i64(p: Seq<i64>, s: int, kind: LiftKind, i: int) -> i64 {
    let j = (i / s) % 4;
    let b = i - j * s;
    let r = lift_spec_i64(kind, (p[b], p[b + s], p[b + 2 * s], p[b + 3 * s]));
    if j == 0 {
        r.0
    } else if j == 1 {
        r.1
    } else if j == 2 {
        r.2
    } else {
        r.3
    }
}

/// `p` after the lifting step of kind `kind` along the axis of stride `s`.
pub open spec fn lift_axis_i64(p: Seq<i64>, s: int, kind: LiftKind) -> Seq<i64> {
    Seq::new(p.len(), |i: int| lift_axis_elem_i64(p, s, kind, i))
}

/// The axes of stride `1, 4, .., 4^(d-1)` transformed in that order.
pub open spec fn axes_up_i64(p: Seq<i64>, d: nat, kind: LiftKind) -> Seq<i64>
    decreases d,
{
    if d == 0 {
        p
    } else {
        lift_axis_i64(axes_up_i64(p, (d - 1) as nat, kind), pow4((d - 1) as nat), kind)
    }
}

/// The axes of stride `4^(d-1), .., 4, 1` transformed in that order.
pub open spec fn axes_down_i64(p: Seq<i64>, d: nat, kind: LiftKind) -> Seq<i64>
    decreases d,
{
    if d == 0 {
        p
    } else {
        axes_down_i64(lift_axis_i64(p, pow4((d - 1) as nat), kind), (d - 1) as nat, kind)
    }
}

/// The `d`-dimensional transform of kind `kind`: forward kinds go along the
/// axes from the fastest-varying one up, inverse kinds in the opposite order.
pub open spec fn xform_spec_i64(p: Seq<i64>, d: nat, kind: LiftKind) -> Seq<i64> {
    match kind {
        LiftKind::Forward | LiftKind::ReversibleForward => axes_up_i64(p, d, kind),
        _ => axes_down_i64(p, d, kind),
    }
}

/// Run the lifting step of kind `kind` on `p[0]`, `p[s]`, `p[2s]`, `p[3s]`.
fn lift_i64(p: &mut [i64], s: usize, kind: LiftKind)
    requires
        3 * s < old(p)@.len(),
    ensures
        final(p)@ == lift_at_i64(old(p)@, s as int, kind),
{
    reveal(lift_spec_i64);
    let x = p[0];
    let y = p[s];
    let z = p[2 * s];
    let w = p[3 * s];
    let r = match kind {
        LiftKind::Forward => {
            let x = x.wrapping_add(w) >> 1u32;
            let w = w.wrapping_sub(x);
            let z = z.wrapping_add(y) >> 1u32;
            let y = y.wrapping_sub(z);
            let x = x.wrapping_add(z) >> 1u32;
            let z = z.wrapping_sub(x);
            let w = w.wrapping_add(y) >> 1u32;
            let y = y.wrapping_sub(w);
            let w = w.wrapping_add(y >> 1u32);
            let y = y.wrapping_sub(w >> 1u32);
            (x, y, z, w)
        },
        LiftKind::Inverse => {
            let y = y.wrapping_add(w >> 1u32);
            let w = w.wrapping_sub(y >> 1u32);
            let y = y.wrapping_add(w);
            let w = w.wrapping_sub(y.wrapping_sub(w));
            let z = z.wrapping_add(x);
            let x = x.wrapping_sub(z.wrapping_sub(x));
            let y = y.wrapping_add(z);
            let z = z.wrapping_sub(y.wrapping_sub(z));
            let w = w.wrapping_add(x);
            let x = x.wrapping_sub(w.wrapping_sub(x));
            (x, y, z, w)
        },
        LiftKind::ReversibleForward => {
            let (x, y, z, w) = (x as u64, y as u64, z as u64, w as u64);
            let w = w.wrapping_sub(z);
            let z = z.wrapping_sub(y);
            let y = y.wrapping_sub(x);
            let w = w.wrapping_sub(z);
            let z = z.wrapping_sub(y);
            let w = w.wrapping_sub(z);
            (x as i64, y as i64, z as i64, w as i64)
        },
        LiftKind::ReversibleInverse => {
            let (x, y, z, w) = (x as u64, y as u64, z as u64, w as u64);
            let w = w.wrapping_add(z);
            let z = z.wrapping_add(y);
            let w = w.wrapping_add(z);
            let y = y.wrapping_add(x);
            let z = z.wrapping_add(y);
            let w = w.wrapping_add(z);
            (x as i64, y as i64, z as i64, w as i64)
        },
    };
    p[0] = r.0;
    p[s] = r.1;
    p[2 * s] = r.2;
    p[3 * s] = r.3;
}

/// Running the lifting step on line `l` extends the lines already done by one.
proof fn axis_step_i64(p0: Seq<i64>, before: Seq<i64>, after: Seq<i64>, l: int, s: int, n: int, kind: LiftKind)
    requires
        s > 0,
        n % (4 * s) == 0,
        0 <= l < n / 4,
        p0.len() == n,
        before.len() == n,
        forall|i: int|
            0 <= i < n ==> #[trigger] before[i] == (if line_of(i, s) < l {
                lift_axis_elem_i64(p0, s, kind, i)
            } else {
                p0[i]
            }),
        ({
            let b = line_index(l, s, 0);
            let r = lift_spec_i64(kind, (before[b], before[b + s], before[b + 2 * s], before[b + 3 * s]));
            after == before.update(b, r.0).update(b + s, r.1).update(b + 2 * s, r.2).update(b + 3 * s, r.3)
        }),
    ensures
        forall|i: int|
            0 <= i < n ==> #[trigger] after[i] == (if line_of(i, s) < l + 1 {
                lift_axis_elem_i64(p0, s, kind, i)
            } else {
                p0[i]
            }),
{
    line_index_facts(l, s, 0, n);
    line_index_facts(l, s, 1, n);
    line_index_facts(l, s, 2, n);
    line_index_facts(l, s, 3, n);
    let b = line_index(l, s, 0);
    assert(line_index(l, s, 1) == b + s);
    assert(line_index(l, s, 2) == b + 2 * s);
    assert(line_index(l, s, 3) == b + 3 * s);
    assert(before[b] == p0[b]);
    assert(before[b + s] == p0[b + s]);
    assert(before[b + 2 * s] == p0[b + 2 * s]);
    assert(before[b + 3 * s] == p0[b + 3 * s]);
    assert forall|i: int| 0 <= i < n implies #[trigger] after[i] == (if line_of(i, s) < l + 1 {
        lift_axis_elem_i64(p0, s, kind, i)
    } else {
        p0[i]
    }) by {
        index_facts(i, s, n);
        let j = (i / s) % 4;
        if line_of(i, s) == l {
            assert(line_index(l, s, j) == i);
            assert(i - j * s == b);
        } else {
            if i == b || i == b + s || i == b + 2 * s || i == b + 3 * s {
                assert(false);
            }
        }
    }
}

/// Run the lifting step of kind `kind` on every line of four elements with
/// stride `s`.
fn lift_axis_exec_i64(p: &mut [i64], s: usize, kind: LiftKind)
    requires
        s == 1 || s == 4 || s == 16 || s == 64,
        old(p)@.len() as int % (4 * s as int) == 0,
        old(p)@.len() <= 256,
    ensures
        final(p)@ == lift_axis_i64(old(p)@, s as int, kind),
{
    let n = p.len();
    let lines = n / 4;
    let ghost p0 = p@;
    let mut l: usize = 0;
    while l < lines
        invariant
            s == 1 || s == 4 || s == 16 || s == 64,
            n == p0.len(),
            n as int % (4 * s as int) == 0,
            n <= 256,
            lines == n / 4,
            l <= lines,
            p@.len() == n,
            forall|i: int|
                0 <= i < n ==> #[trigger] p@[i] == (if line_of(i, s as int) < l {
                    lift_axis_elem_i64(p0, s as int, kind, i)
                } else {
                    p0[i]
                }),
        decreases lines - l,
    {
        proof {
            line_index_facts(l as int, s as int, 0, n as int);
            line_index_facts(l as int, s as int, 1, n as int);
            line_index_facts(l as int, s as int, 2, n as int);
            line_index_facts(l as int, s as int, 3, n as int);
            assert((l / s) * (4 * s) <= line_index(l as int, s as int, 0));
        }
        let base = (l / s) * (4 * s) + l % s;
        let ghost before = p@;
        let mut line = [p[base], p[base + s], p[base + 2 * s], p[base + 3 * s]];
        lift_i64(&mut line, 1, kind);
        p[base] = line[0];
        p[base + s] = line[1];
        p[base + 2 * s] = line[2];
        p[base + 3 * s] = line[3];
        proof {
            axis_step_i64(p0, before, p@, l as int, s as int, n as int, kind);
        }
        l = l + 1;
    }
    proof {
        assert forall|i: int| 0 <= i < n implies line_of(i, s as int) < lines by {
            index_facts(i, s as int, n as int);
        }
        assert(p@ =~= lift_axis_i64(p0, s as int, kind));
    }
}

proof fn cast_roundtrip_i32(v: i32)
    ensures
        (v as u32) as i32 == v,
{
    assert((v as u32) as i32 == v) by (bit_vector);
}

proof fn cast_roundtrip_u32(v: u32)
    ensures
        (v as i32) as u32 == v,
{
    assert((v as i32) as u32 == v) by (bit_vector);
}

/// The reversible inverse lifting step undoes the reversible forward one.
pub proof fn lemma_rev_lift_roundtrip_i32(v: (i32, i32, i32, i32))
    ensures
        lift_spec_i32(LiftKind::ReversibleInverse, lift_spec_i32(LiftKind::ReversibleForward, v)) == v,
{
    reveal(lift_spec_i32);
    let (x, y, z, w) = (v.0 as u32, v.1 as u32, v.2 as u32, v.3 as u32);
    let w1 = w.wrapping_sub(z);
    let z1 = z.wrapping_sub(y);
    let y1 = y.wrapping_sub(x);
    let w2 = w1.wrapping_sub(z1);
    let z2 = z1.wrapping_sub(y1);
    let w3 = w2.wrapping_sub(z2);
    cast_roundtrip_u32(x);
    cast_roundtrip_u32(y1);
    cast_roundtrip_u32(z2);
    cast_roundtrip_u32(w3);
    let a = w3.wrapping_add(z2);
    let b = z2.wrapping_add(y1);
    let c = a.wrapping_add(b);
    let d = y1.wrapping_add(x);
    let e = b.wrapping_add(d);
    let g = c.wrapping_add(e);
    assert(a == w2);
    assert(b == z1);
    assert(c == w1);
    assert(d == y);
    assert(e == z);
    assert(g == w);
    cast_roundtrip_i32(v.0);
    cast_roundtrip_i32(v.1);
    cast_roundtrip_i32(v.2);
    cast_roundtrip_i32(v.3);
}

proof fn axis_roundtrip_i32(q: Seq<i32>, s: int)
    requires
        s > 0,
        q.len() as int % (4 * s) == 0,
    ensures
        lift_axis_i32(lift_axis_i32(q, s, LiftKind::ReversibleForward), s, LiftKind::ReversibleInverse) == q,
{
    let n = q.len() as int;
    let f = lift_axis_i32(q, s, LiftKind::ReversibleForward);
    let g = lift_axis_i32(f, s, LiftKind::ReversibleInverse);
    assert forall|i: int| 0 <= i < n implies #[trigger] g[i] == q[i] by {
        index_facts(i, s, n);
        let j = (i / s) % 4;
        let l = line_of(i, s);
        let b = i - j * s;
        assert(b == line_index(l, s, 0));
        line_index_facts(l, s, 0, n);
        line_index_facts(l, s, 1, n);
        line_index_facts(l, s, 2, n);
        line_index_facts(l, s, 3, n);
        assert(line_index(l, s, 1) == b + s);
        assert(line_index(l, s, 2) == b + 2 * s);
        assert(line_index(l, s, 3) == b + 3 * s);
        let v = (q[b], q[b + s], q[b + 2 * s], q[b + 3 * s]);
        lemma_rev_lift_roundtrip_i32(v);
        assert(f[b] == lift_spec_i32(LiftKind::ReversibleForward, v).0);
        assert(f[b + s] == lift_spec_i32(LiftKind::ReversibleForward, v).1);
        assert(f[b + 2 * s] == lift_spec_i32(LiftKind::ReversibleForward, v).2);
        assert(f[b + 3 * s] == lift_spec_i32(LiftKind::ReversibleForward, v).3);
    }
    assert(g =~= q);
}

proof fn axes_roundtrip_i32(p: Seq<i32>, d: nat)
    requires
        p.len() as int % pow4(d) == 0,
    ensures
        axes_down_i32(axes_up_i32(p, d, LiftKind::ReversibleForward), d, LiftKind::ReversibleInverse) == p,
        axes_up_i32(p, d, LiftKind::ReversibleForward).len() == p.len(),
    decreases d,
{
    if d > 0 {
        let e = (d - 1) as nat;
        pow4_positive(e);
        let len = p.len() as int;
        div_mod_parts(len, pow4(d));
        let k = len / pow4(d);
        assert(len == (4 * k) * pow4(e) + 0) by (nonlinear_arith)
            requires
                len == k * pow4(d) + 0,
                pow4(d) == 4 * pow4(e),
        ;
        div_mod_unique(len, pow4(e), 4 * k, 0);
        axes_roundtrip_i32(p, e);
        let a = axes_up_i32(p, e, LiftKind::ReversibleForward);
        assert(4 * pow4(e) == pow4(d));
        axis_roundtrip_i32(a, pow4(e));
    }
}

/// The reversible inverse transform of a `d`-dimensional block undoes the
/// reversible forward transform.
pub proof fn lemma_rev_xform_roundtrip_i32(p: Seq<i32>, d: nat)
    requires
        p.len() == pow4(d),
    ensures
        xform_spec_i32(xform_spec_i32(p, d, LiftKind::ReversibleForward), d, LiftKind::ReversibleInverse) == p,
{
    pow4_positive(d);
    div_mod_unique(pow4(d), pow4(d), 1, 0);
    axes_roundtrip_i32(p, d);
}

proof fn cast_roundtrip_i64(v: i64)
    ensures
        (v as u64) as i64 == v,
{
    assert((v as u64) as i64 == v) by (bit_vector);
}

proof fn cast_roundtrip_u64(v: u64)
    ensures
        (v as i64) as u64 == v,
{
    assert((v as i64) as u64 == v) by (bit_vector);
}

/// The reversible inverse lifting step undoes the reversible forward one.
pub proof fn lemma_rev_lift_roundtrip_i64(v: (i64, i64, i64, i64))
    ensures
        lift_spec_i64(LiftKind::ReversibleInverse, lift_spec_i64(LiftKind::ReversibleForward, v)) == v,
{
    reveal(lift_spec_i64);
    let (x, y, z, w) = (v.0 as u64, v.1 as u64, v.2 as u64, v.3 as u64);
    let w1 = w.wrapping_sub(z);
    let z1 = z.wrapping_sub(y);
    let y1 = y.wrapping_sub(x);
    let w2 = w1.wrapping_sub(z1);
    let z2 = z1.wrapping_sub(y1);
    let w3 = w2.wrapping_sub(z2);
    cast_roundtrip_u64(x);
    cast_roundtrip_u64(y1);
    cast_roundtrip_u64(z2);
    cast_roundtrip_u64(w3);
    let a = w3.wrapping_add(z2);
    let b = z2.wrapping_add(y1);
    let c = a.wrapping_add(b);
    let d = y1.wrapping_add(x);
    let e = b.wrapping_add(d);
    let g = c.wrapping_add(e);
    assert(a == w2);
    assert(b == z1);
    assert(c == w1);
    assert(d == y);
    assert(e == z);
    assert(g == w);
    cast_roundtrip_i64(v.0);
    cast_roundtrip_i64(v.1);
    cast_roundtrip_i64(v.2);
    cast_roundtrip_i64(v.3);
}

proof fn axis_roundtrip_i64(q: Seq<i64>, s: int)
    requires
        s > 0,
        q.len() as int % (4 * s) == 0,
    ensures
        lift_axis_i64(lift_axis_i64(q, s, LiftKind::ReversibleForward), s, LiftKind::ReversibleInverse) == q,
{
    let n = q.len() as int;
    let f = lift_axis_i64(q, s, LiftKind::ReversibleForward);
    let g = lift_axis_i64(f, s, LiftKind::ReversibleInverse);
    assert forall|i: int| 0 <= i < n implies #[trigger] g[i] == q[i] by {
        index_facts(i, s, n);
        let j = (i / s) % 4;
        let l = line_of(i, s);
        let b = i - j * s;
        assert(b == line_index(l, s, 0));
        line_index_facts(l, s, 0, n);
        line_index_facts(l, s, 1, n);
        line_index_facts(l, s, 2, n);
        line_index_facts(l, s, 3, n);
        assert(line_index(l, s, 1) == b + s);
        assert(line_index(l, s, 2) == b + 2 * s);
        assert(line_index(l, s, 3) == b + 3 * s);
        let v = (q[b], q[b + s], q[b + 2 * s], q[b + 3 * s]);
        lemma_rev_lift_roundtrip_i64(v);
        assert(f[b] == lift_spec_i64(LiftKind::ReversibleForward, v).0);
        assert(f[b + s] == lift_spec_i64(LiftKind::ReversibleForward, v).1);
        assert(f[b + 2 * s] == lift_spec_i64(LiftKind::ReversibleForward, v).2);
        assert(f[b + 3 * s] == lift_spec_i64(LiftKind::ReversibleForward, v).3);
    }
    assert(g =~= q);
}

proof fn axes_roundtrip_i64(p: Seq<i64>, d: nat)
    requires
        p.len() as int % pow4(d) == 0,
    ensures
        axes_down_i64(axes_up_i64(p, d, LiftKind::ReversibleForward), d, LiftKind::ReversibleInverse) == p,
        axes_up_i64(p, d, LiftKind::ReversibleForward).len() == p.len(),
    decreases d,
{
    if d > 0 {
        let e = (d - 1) as nat;
        pow4_positive(e);
        let len = p.len() as int;
        div_mod_parts(len, pow4(d));
        let k = len / pow4(d);
        assert(len == (4 * k) * pow4(e) + 0) by (nonlinear_arith)
            requires
                len == k * pow4(d) + 0,
                pow4(d) == 4 * pow4(e),
        ;
        div_mod_unique(len, pow4(e), 4 * k, 0);
        axes_roundtrip_i64(p, e);
        let a = axes_up_i64(p, e, LiftKind::ReversibleForward);
        assert(4 * pow4(e) == pow4(d));
        axis_roundtrip_i64(a, pow4(e));
    }
}

/// The reversible inverse transform of a `d`-dimensional block undoes the
/// reversible forward transform.
pub proof fn lemma_rev_xform_roundtrip_i64(p: Seq<i64>, d: nat)
    requires
        p.len() == pow4(d),
    ensures
        xform_spec_i64(xform_spec_i64(p, d, LiftKind::ReversibleForward), d, LiftKind::ReversibleInverse) == p,
{
    pow4_positive(d);
    div_mod_unique(pow4(d), pow4(d), 1, 0);
    axes_roundtrip_i64(p, d);
}

/// The `d`-dimensional transform of kind `kind` of a block of `4^d` values.
pub fn xform_block_i32(p: &mut [i32], d: usize, kind: LiftKind)
    requires
        1 <= d <= 4,
        old(p)@.len() == pow4(d as nat),
    ensures
        final(p)@ == xform_spec_i32(old(p)@, d as nat, kind),
        final(p)@.len() == old(p)@.len(),
{
    proof {
        reveal_with_fuel(axes_up_i32, 5);
        reveal_with_fuel(axes_down_i32, 5);
        reveal_with_fuel(pow4, 5);
    }
    match kind {
        LiftKind::Forward | LiftKind::ReversibleForward => {
            lift_axis_exec_i32(p, 1, kind);
            if d >= 2 {
                lift_axis_exec_i32(p, 4, kind);
            }
            if d >= 3 {
                lift_axis_exec_i32(p, 16, kind);
            }
            if d >= 4 {
                lift_axis_exec_i32(p, 64, kind);
            }
        },
        _ => {
            if d >= 4 {
                lift_axis_exec_i32(p, 64, kind);
            }
            if d >= 3 {
                lift_axis_exec_i32(p, 16, kind);
            }
            if d >= 2 {
                lift_axis_exec_i32(p, 4, kind);
            }
            lift_axis_exec_i32(p, 1, kind);
        },
    }
}

/// Forward lifting step on `p[0]`, `p[s]`, `p[2s]`, `p[3s]`, in wrapping arithmetic.
pub fn fwd_lift_i32(p: &mut [i32], s: usize)
    requires
        3 * s < old(p)@.len(),
    ensures
        final(p)@ == lift_at_i32(old(p)@, s as int, LiftKind::Forward),
{
    lift_i32(p, s, LiftKind::Forward)
}

/// Inverse lifting step on `p[0]`, `p[s]`, `p[2s]`, `p[3s]`, in wrapping arithmetic.
pub fn inv_lift_i32(p: &mut [i32], s: usize)
    requires
        3 * s < old(p)@.len(),
    ensures
        final(p)@ == lift_at_i32(old(p)@, s as int, LiftKind::Inverse),
{
    lift_i32(p, s, LiftKind::Inverse)
}

/// Reversible forward lifting step on `p[0]`, `p[s]`, `p[2s]`, `p[3s]`, in wrapping arithmetic.
pub fn rev_fwd_lift_i32(p: &mut [i32], s: usize)
    requires
        3 * s < old(p)@.len(),
    ensures
        final(p)@ == lift_at_i32(old(p)@, s as int, LiftKind::ReversibleForward),
{
    lift_i32(p, s, LiftKind::ReversibleForward)
}

/// Reversible inverse lifting step on `p[0]`, `p[s]`, `p[2s]`, `p[3s]`, in wrapping arithmetic.
pub fn rev_inv_lift_i32(p: &mut [i32], s: usize)
    requires
        3 * s < old(p)@.len(),
    ensures
        final(p)@ == lift_at_i32(old(p)@, s as int, LiftKind::ReversibleInverse),
{
    lift_i32(p, s, LiftKind::ReversibleInverse)
}

/// Forward decorrelating transform of a 4 block of 4 values.
pub fn fwd_xform_1d(p: &mut [i32; 4])
    ensures
        final(p)@ == xform_spec_i32(old(p)@, 1, LiftKind::Forward),
{
    lift_axis_exec_i32(p, 1, LiftKind::Forward);
    proof {
        reveal_with_fuel(axes_up_i32, 2);
        reveal_with_fuel(axes_down_i32, 2);
    }
}

/// Forward decorrelating transform of a 4×4 block of 16 values.
pub fn fwd_xform_2d(p: &mut [i32; 16])
    ensures
        final(p)@ == xform_spec_i32(old(p)@, 2, LiftKind::Forward),
{
    lift_axis_exec_i32(p, 1, LiftKind::Forward);
    lift_axis_exec_i32(p, 4, LiftKind::Forward);
    proof {
        reveal_with_fuel(axes_up_i32, 3);
        reveal_with_fuel(axes_down_i32, 3);
    }
}

/// Forward decorrelating transform of a 4×4×4 block of 64 values.
pub fn fwd_xform_3d(p: &mut [i32; 64])
    ensures
        final(p)@ == xform_spec_i32(old(p)@, 3, LiftKind::Forward),
{
    lift_axis_exec_i32(p, 1, LiftKind::Forward);
    lift_axis_exec_i32(p, 4, LiftKind::Forward);
    lift_axis_exec_i32(p, 16, LiftKind::Forward);
    proof {
        reveal_with_fuel(axes_up_i32, 4);
        reveal_with_fuel(axes_down_i32, 4);
    }
}

/// Forward decorrelating transform of a 4×4×4×4 block of 256 values.
pub fn fwd_xform_4d(p: &mut [i32; 256])
    ensures
        final(p)@ == xform_spec_i32(old(p)@, 4, LiftKind::Forward),
{
    lift_axis_exec_i32(p, 1, LiftKind::Forward);
    lift_axis_exec_i32(p, 4, LiftKind::Forward);
    lift_axis_exec_i32(p, 16, LiftKind::Forward);
    lift_axis_exec_i32(p, 64, LiftKind::Forward);
    proof {
        reveal_with_fuel(axes_up_i32, 5);
        reveal_with_fuel(axes_down_i32, 5);
    }
}

/// Inverse decorrelating transform of a 4 block of 4 values.
pub fn inv_xform_1d(p: &mut [i32; 4])
    ensures
        final(p)@ == xform_spec_i32(old(p)@, 1, LiftKind::Inverse),
{
    lift_axis_exec_i32(p, 1, LiftKind::Inverse);
    proof {
        reveal_with_fuel(axes_up_i32, 2);
        reveal_with_fuel(axes_down_i32, 2);
    }
}

/// Inverse decorrelating transform of a 4×4 block of 16 values.
pub fn inv_xform_2d(p: &mut [i32; 16])
    ensures
        final(p)@ == xform_spec_i32(old(p)@, 2, LiftKind::Inverse),
{
    lift_axis_exec_i32(p, 4, LiftKind::Inverse);
    lift_axis_exec_i32(p, 1, LiftKind::Inverse);
    proof {
        reveal_with_fuel(axes_up_i32, 3);
        reveal_with_fuel(axes_down_i32, 3);
    }
}

/// Inverse decorrelating transform of a 4×4×4 block of 64 values.
pub fn inv_xform_3d(p: &mut [i32; 64])
    ensures
        final(p)@ == xform_spec_i32(old(p)@, 3, LiftKind::Inverse),
{
    lift_axis_exec_i32(p, 16, LiftKind::Inverse);
    lift_axis_exec_i32(p, 4, LiftKind::Inverse);
    lift_axis_exec_i32(p, 1, LiftKind::Inverse);
    proof {
        reveal_with_fuel(axes_up_i32, 4);
        reveal_with_fuel(axes_down_i32, 4);
    }
}

/// Inverse decorrelating transform of a 4×4×4×4 block of 256 values.
pub fn inv_xform_4d(p: &mut [i32; 256])
    ensures
        final(p)@ == xform_spec_i32(old(p)@, 4, LiftKind::Inverse),
{
    lift_axis_exec_i32(p, 64, LiftKind::Inverse);
    lift_axis_exec_i32(p, 16, LiftKind::Inverse);
    lift_axis_exec_i32(p, 4, LiftKind::Inverse);
    lift_axis_exec_i32(p, 1, LiftKind::Inverse);
    proof {
        reveal_with_fuel(axes_up_i32, 5);
        reveal_with_fuel(axes_down_i32, 5);
    }
}

/// Reversible forward transform of a 4 block of 4 values.
pub fn rev_fwd_xform_1d(p: &mut [i32; 4])
    ensures
        final(p)@ == xform_spec_i32(old(p)@, 1, LiftKind::ReversibleForward),
{
    lift_axis_exec_i32(p, 1, LiftKind::ReversibleForward);
    proof {
        reveal_with_fuel(axes_up_i32, 2);
        reveal_with_fuel(axes_down_i32, 2);
    }
}

/// Reversible forward transform of a 4×4 block of 16 values.
pub fn rev_fwd_xform_2d(p: &mut [i32; 16])
    ensures
        final(p)@ == xform_spec_i32(old(p)@, 2, LiftKind::ReversibleForward),
{
    lift_axis_exec_i32(p, 1, LiftKind::ReversibleForward);
    lift_axis_exec_i32(p, 4, LiftKind::ReversibleForward);
    proof {
        reveal_with_fuel(axes_up_i32, 3);
        reveal_with_fuel(axes_down_i32, 3);
    }
}

/// Reversible forward transform of a 4×4×4 block of 64 values.
pub fn rev_fwd_xform_3d(p: &mut [i32; 64])
    ensures
        final(p)@ == xform_spec_i32(old(p)@, 3, LiftKind::ReversibleForward),
{
    lift_axis_exec_i32(p, 1, LiftKind::ReversibleForward);
    lift_axis_exec_i32(p, 4, LiftKind::ReversibleForward);
    lift_axis_exec_i32(p, 16, LiftKind::ReversibleForward);
    proof {
        reveal_with_fuel(axes_up_i32, 4);
        reveal_with_fuel(axes_down_i32, 4);
    }
}

/// Reversible forward transform of a 4×4×4×4 block of 256 values.
pub fn rev_fwd_xform_4d(p: &mut [i32; 256])
    ensures
        final(p)@ == xform_spec_i32(old(p)@, 4, LiftKind::ReversibleForward),
{
    lift_axis_exec_i32(p, 1, LiftKind::ReversibleForward);
    lift_axis_exec_i32(p, 4, LiftKind::ReversibleForward);
    lift_axis_exec_i32(p, 16, LiftKind::ReversibleForward);
    lift_axis_exec_i32(p, 64, LiftKind::ReversibleForward);
    proof {
        reveal_with_fuel(axes_up_i32, 5);
        reveal_with_fuel(axes_down_i32, 5);
    }
}

/// Reversible inverse transform of a 4 block of 4 values.
pub fn rev_inv_xform_1d(p: &mut [i32; 4])
    ensures
        final(p)@ == xform_spec_i32(old(p)@, 1, LiftKind::ReversibleInverse),
{
    lift_axis_exec_i32(p, 1, LiftKind::ReversibleInverse);
    proof {
        reveal_with_fuel(axes_up_i32, 2);
        reveal_with_fuel(axes_down_i32, 2);
    }
}

/// Reversible inverse transform of a 4×4 block of 16 values.
pub fn rev_inv_xform_2d(p: &mut [i32; 16])
    ensures
        final(p)@ == xform_spec_i32(old(p)@, 2, LiftKind::ReversibleInverse),
{
    lift_axis_exec_i32(p, 4, LiftKind::ReversibleInverse);
    lift_axis_exec_i32(p, 1, LiftKind::ReversibleInverse);
    proof {
        reveal_with_fuel(axes_up_i32, 3);
        reveal_with_fuel(axes_down_i32, 3);
    }
}

/// Reversible inverse transform of a 4×4×4 block of 64 values.
pub fn rev_inv_xform_3d(p: &mut [i32; 64])
    ensures
        final(p)@ == xform_spec_i32(old(p)@, 3, LiftKind::ReversibleInverse),
{
    lift_axis_exec_i32(p, 16, LiftKind::ReversibleInverse);
    lift_axis_exec_i32(p, 4, LiftKind::ReversibleInverse);
    lift_axis_exec_i32(p, 1, LiftKind::ReversibleInverse);
    proof {
        reveal_with_fuel(axes_up_i32, 4);
        reveal_with_fuel(axes_down_i32, 4);
    }
}

/// Reversible inverse transform of a 4×4×4×4 block of 256 values.
pub fn rev_inv_xform_4d(p: &mut [i32; 256])
    ensures
        final(p)@ == xform_spec_i32(old(p)@, 4, LiftKind::ReversibleInverse),
{
    lift_axis_exec_i32(p, 64, LiftKind::ReversibleInverse);
    lift_axis_exec_i32(p, 16, LiftKind::ReversibleInverse);
    lift_axis_exec_i32(p, 4, LiftKind::ReversibleInverse);
    lift_axis_exec_i32(p, 1, LiftKind::ReversibleInverse);
    proof {
        reveal_with_fuel(axes_up_i32, 5);
        reveal_with_fuel(axes_down_i32, 5);
    }
}

/// The `d`-dimensional transform of kind `kind` of a block of `4^d` values.
pub fn xform_block_i64(p: &mut [i64], d: usize, kind: LiftKind)
    requires
        1 <= d <= 4,
        old(p)@.len() == pow4(d as nat),
    ensures
        final(p)@ == xform_spec_i64(old(p)@, d as nat, kind),
        final(p)@.len() == old(p)@.len(),
{
    proof {
        reveal_with_fuel(axes_up_i64, 5);
        reveal_with_fuel(axes_down_i64, 5);
        reveal_with_fuel(pow4, 5);
    }
    match kind {
        LiftKind::Forward | LiftKind::ReversibleForward => {
            lift_axis_exec_i64(p, 1, kind);
            if d >= 2 {
                lift_axis_exec_i64(p, 4, kind);
            }
            if d >= 3 {
                lift_axis_exec_i64(p, 16, kind);
            }
            if d >= 4 {
                lift_axis_exec_i64(p, 64, kind);
            }
        },
        _ => {
            if d >= 4 {
                lift_axis_exec_i64(p, 64, kind);
            }
            if d >= 3 {
                lift_axis_exec_i64(p, 16, kind);
            }
            if d >= 2 {
                lift_axis_exec_i64(p, 4, kind);
            }
            lift_axis_exec_i64(p, 1, kind);
        },
    }
}

/// Forward lifting step on `p[0]`, `p[s]`, `p[2s]`, `p[3s]`, in wrapping arithmetic.
pub fn fwd_lift_i64(p: &mut [i64], s: usize)
    requires
        3 * s < old(p)@.len(),
    ensures
        final(p)@ == lift_at_i64(old(p)@, s as int, LiftKind::Forward),
{
    lift_i64(p, s, LiftKind::Forward)
}

/// Inverse lifting step on `p[0]`, `p[s]`, `p[2s]`, `p[3s]`, in wrapping arithmetic.
pub fn inv_lift_i64(p: &mut [i64], s: usize)
    requires
        3 * s < old(p)@.len(),
    ensures
        final(p)@ == lift_at_i64(old(p)@, s as int, LiftKind::Inverse),
{
    lift_i64(p, s, LiftKind::Inverse)
}

/// Reversible forward lifting step on `p[0]`, `p[s]`, `p[2s]`, `p[3s]`, in wrapping arithmetic.
pub fn rev_fwd_lift_i64(p: &mut [i64], s: usize)
    requires
        3 * s < old(p)@.len(),
    ensures
        final(p)@ == lift_at_i64(old(p)@, s as int, LiftKind::ReversibleForward),
{
    lift_i64(p, s, LiftKind::ReversibleForward)
}

/// Reversible inverse lifting step on `p[0]`, `p[s]`, `p[2s]`, `p[3s]`, in wrapping arithmetic.
pub fn rev_inv_lift_i64(p: &mut [i64], s: usize)
    requires
        3 * s < old(p)@.len(),
    ensures
        final(p)@ == lift_at_i64(old(p)@, s as int, LiftKind::ReversibleInverse),
{
    lift_i64(p, s, LiftKind::ReversibleInverse)
}

/// Forward decorrelating transform of a 4 block of 4 values.
pub fn fwd_xform_1d_i64(p: &mut [i64; 4])
    ensures
        final(p)@ == xform_spec_i64(old(p)@, 1, LiftKind::Forward),
{
    lift_axis_exec_i64(p, 1, LiftKind::Forward);
    proof {
        reveal_with_fuel(axes_up_i64, 2);
        reveal_with_fuel(axes_down_i64, 2);
    }
}

/// Forward decorrelating transform of a 4×4 block of 16 values.
pub fn fwd_xform_2d_i64(p: &mut [i64; 16])
    ensures
        final(p)@ == xform_spec_i64(old(p)@, 2, LiftKind::Forward),
{
    lift_axis_exec_i64(p, 1, LiftKind::Forward);
    lift_axis_exec_i64(p, 4, LiftKind::Forward);
    proof {
        reveal_with_fuel(axes_up_i64, 3);
        reveal_with_fuel(axes_down_i64, 3);
    }
}

/// Forward decorrelating transform of a 4×4×4 block of 64 values.
pub fn fwd_xform_3d_i64(p: &mut [i64; 64])
    ensures
        final(p)@ == xform_spec_i64(old(p)@, 3, LiftKind::Forward),
{
    lift_axis_exec_i64(p, 1, LiftKind::Forward);
    lift_axis_exec_i64(p, 4, LiftKind::Forward);
    lift_axis_exec_i64(p, 16, LiftKind::Forward);
    proof {
        reveal_with_fuel(axes_up_i64, 4);
        reveal_with_fuel(axes_down_i64, 4);
    }
}

/// Forward decorrelating transform of a 4×4×4×4 block of 256 values.
pub fn fwd_xform_4d_i64(p: &mut [i64; 256])
    ensures
        final(p)@ == xform_spec_i64(old(p)@, 4, LiftKind::Forward),
{
    lift_axis_exec_i64(p, 1, LiftKind::Forward);
    lift_axis_exec_i64(p, 4, LiftKind::Forward);
    lift_axis_exec_i64(p, 16, LiftKind::Forward);
    lift_axis_exec_i64(p, 64, LiftKind::Forward);
    proof {
        reveal_with_fuel(axes_up_i64, 5);
        reveal_with_fuel(axes_down_i64, 5);
    }
}

/// Inverse decorrelating transform of a 4 block of 4 values.
pub fn inv_xform_1d_i64(p: &mut [i64; 4])
    ensures
        final(p)@ == xform_spec_i64(old(p)@, 1, LiftKind::Inverse),
{
    lift_axis_exec_i64(p, 1, LiftKind::Inverse);
    proof {
        reveal_with_fuel(axes_up_i64, 2);
        reveal_with_fuel(axes_down_i64, 2);
    }
}

/// Inverse decorrelating transform of a 4×4 block of 16 values.
pub fn inv_xform_2d_i64(p: &mut [i64; 16])
    ensures
        final(p)@ == xform_spec_i64(old(p)@, 2, LiftKind::Inverse),
{
    lift_axis_exec_i64(p, 4, LiftKind::Inverse);
    lift_axis_exec_i64(p, 1, LiftKind::Inverse);
    proof {
        reveal_with_fuel(axes_up_i64, 3);
        reveal_with_fuel(axes_down_i64, 3);
    }
}

/// Inverse decorrelating transform of a 4×4×4 block of 64 values.
pub fn inv_xform_3d_i64(p: &mut [i64; 64])
    ensures
        final(p)@ == xform_spec_i64(old(p)@, 3, LiftKind::Inverse),
{
    lift_axis_exec_i64(p, 16, LiftKind::Inverse);
    lift_axis_exec_i64(p, 4, LiftKind::Inverse);
    lift_axis_exec_i64(p, 1, LiftKind::Inverse);
    proof {
        reveal_with_fuel(axes_up_i64, 4);
        reveal_with_fuel(axes_down_i64, 4);
    }
}

/// Inverse decorrelating transform of a 4×4×4×4 block of 256 values.
pub fn inv_xform_4d_i64(p: &mut [i64; 256])
    ensures
        final(p)@ == xform_spec_i64(old(p)@, 4, LiftKind::Inverse),
{
    lift_axis_exec_i64(p, 64, LiftKind::Inverse);
    lift_axis_exec_i64(p, 16, LiftKind::Inverse);
    lift_axis_exec_i64(p, 4, LiftKind::Inverse);
    lift_axis_exec_i64(p, 1, LiftKind::Inverse);
    proof {
        reveal_with_fuel(axes_up_i64, 5);
        reveal_with_fuel(axes_down_i64, 5);
    }
}

/// Reversible forward transform of a 4 block of 4 values.
pub fn rev_fwd_xform_1d_i64(p: &mut [i64; 4])
    ensures
        final(p)@ == xform_spec_i64(old(p)@, 1, LiftKind::ReversibleForward),
{
    lift_axis_exec_i64(p, 1, LiftKind::ReversibleForward);
    proof {
        reveal_with_fuel(axes_up_i64, 2);
        reveal_with_fuel(axes_down_i64, 2);
    }
}

/// Reversible forward transform of a 4×4 block of 16 values.
pub fn rev_fwd_xform_2d_i64(p: &mut [i64; 16])
    ensures
        final(p)@ == xform_spec_i64(old(p)@, 2, LiftKind::ReversibleForward),
{
    lift_axis_exec_i64(p, 1, LiftKind::ReversibleForward);
    lift_axis_exec_i64(p, 4, LiftKind::ReversibleForward);
    proof {
        reveal_with_fuel(axes_up_i64, 3);
        reveal_with_fuel(axes_down_i64, 3);
    }
}

/// Reversible forward transform of a 4×4×4 block of 64 values.
pub fn rev_fwd_xform_3d_i64(p: &mut [i64; 64])
    ensures
        final(p)@ == xform_spec_i64(old(p)@, 3, LiftKind::ReversibleForward),
{
    lift_axis_exec_i64(p, 1, LiftKind::ReversibleForward);
    lift_axis_exec_i64(p, 4, LiftKind::ReversibleForward);
    lift_axis_exec_i64(p, 16, LiftKind::ReversibleForward);
    proof {
        reveal_with_fuel(axes_up_i64, 4);
        reveal_with_fuel(axes_down_i64, 4);
    }
}

/// Reversible forward transform of a 4×4×4×4 block of 256 values.
pub fn rev_fwd_xform_4d_i64(p: &mut [i64; 256])
    ensures
        final(p)@ == xform_spec_i64(old(p)@, 4, LiftKind::ReversibleForward),
{
    lift_axis_exec_i64(p, 1, LiftKind::ReversibleForward);
    lift_axis_exec_i64(p, 4, LiftKind::ReversibleForward);
    lift_axis_exec_i64(p, 16, LiftKind::ReversibleForward);
    lift_axis_exec_i64(p, 64, LiftKind::ReversibleForward);
    proof {
        reveal_with_fuel(axes_up_i64, 5);
        reveal_with_fuel(axes_down_i64, 5);
    }
}

/// Reversible inverse transform of a 4 block of 4 values.
pub fn rev_inv_xform_1d_i64(p: &mut [i64; 4])
    ensures
        final(p)@ == xform_spec_i64(old(p)@, 1, LiftKind::ReversibleInverse),
{
    lift_axis_exec_i64(p, 1, LiftKind::ReversibleInverse);
    proof {
        reveal_with_fuel(axes_up_i64, 2);
        reveal_with_fuel(axes_down_i64, 2);
    }
}

/// Reversible inverse transform of a 4×4 block of 16 values.
pub fn rev_inv_xform_2d_i64(p: &mut [i64; 16])
    ensures
        final(p)@ == xform_spec_i64(old(p)@, 2, LiftKind::ReversibleInverse),
{
    lift_axis_exec_i64(p, 4, LiftKind::ReversibleInverse);
    lift_axis_exec_i64(p, 1, LiftKind::ReversibleInverse);
    proof {
        reveal_with_fuel(axes_up_i64, 3);
        reveal_with_fuel(axes_down_i64, 3);
    }
}

/// Reversible inverse transform of a 4×4×4 block of 64 values.
pub fn rev_inv_xform_3d_i64(p: &mut [i64; 64])
    ensures
        final(p)@ == xform_spec_i64(old(p)@, 3, LiftKind::ReversibleInverse),
{
    lift_axis_exec_i64(p, 16, LiftKind::ReversibleInverse);
    lift_axis_exec_i64(p, 4, LiftKind::ReversibleInverse);
    lift_axis_exec_i64(p, 1, LiftKind::ReversibleInverse);
    proof {
        reveal_with_fuel(axes_up_i64, 4);
        reveal_with_fuel(axes_down_i64, 4);
    }
}

/// Reversible inverse transform of a 4×4×4×4 block of 256 values.
pub fn rev_inv_xform_4d_i64(p: &mut [i64; 256])
    ensures
        final(p)@ == xform_spec_i64(old(p)@, 4, LiftKind::ReversibleInverse),
{
    lift_axis_exec_i64(p, 64, LiftKind::ReversibleInverse);
    lift_axis_exec_i64(p, 16, LiftKind::ReversibleInverse);
    lift_axis_exec_i64(p, 4, LiftKind::ReversibleInverse);
    lift_axis_exec_i64(p, 1, LiftKind::ReversibleInverse);
    proof {
        reveal_with_fuel(axes_up_i64, 5);
        reveal_with_fuel(axes_down_i64, 5);
    }
}

} // verus!
