//! Moving the values of one block between a field's byte buffer and a block
//! of `4^d` raw values, through the field's strides.
//!
//! A value is stored as `size` little-endian bytes. A block that reaches past
//! the end of an axis is filled in gathering: position 3 takes the value of
//! position 0, and the other missing positions the last value on the axis;
//! scattering writes only the positions inside the field.

use vstd::prelude::*;
use crate::codec::order::pow4n;
use crate::field::{
    axis_extent, blocks_along, max0, min0, span_fits, spec_dimensionality, spec_effective_strides, spec_index_span,
    spec_num_blocks,
};
use crate::field_plan::{blocks_on_axis, FieldPlan};

verus! {

/// The little-endian value of the `n` bytes of `data` from `off`.
pub open spec fn le_bytes(data: Seq<u8>, off: int, n: nat) -> int
    decreases n,
{
    if n == 0 {
        0
    } else {
        data[off] + 256 * le_bytes(data, off + 1, (n - 1) as nat)
    }
}

/// `256^n`.
pub open spec fn pow256(n: nat) -> int
    decreases n,
{
    if n == 0 {
        1
    } else {
        256 * pow256((n - 1) as nat)
    }
}

/// `data` with the `n` bytes from `off` set to the little-endian bytes of `v`.
pub open spec fn put_le(data: Seq<u8>, off: int, n: nat, v: int) -> Seq<u8> {
    Seq::new(data.len(), |j: int| if off <= j < off + n { ((v / pow256((j - off) as nat)) % 256) as u8 } else { data[j] })
}

proof fn pow256_mono(a: nat, b: nat)
    requires
        a <= b,
    ensures
        1 <= pow256(a) <= pow256(b),
    decreases b,
{
    if a < b {
        pow256_mono(a, (b - 1) as nat);
    } else if b > 0 {
        pow256_mono(0, (b - 1) as nat);
    }
}

pub(crate) proof fn le_bytes_bound(data: Seq<u8>, off: int, n: nat)
    ensures
        0 <= le_bytes(data, off, n) < pow256(n),
    decreases n,
{
    if n > 0 {
        le_bytes_bound(data, off + 1, (n - 1) as nat);
    }
}

/// The little-endian value of `size` bytes (4 or 8) of `data` from `off`.
pub fn read_le(data: &[u8], off: usize, size: usize) -> (r: u64)
    requires
        size == 4 || size == 8,
        off + size <= data@.len(),
    ensures
        r == le_bytes(data@, off as int, size as nat),
{
    proof {
        le_bytes_bound(data@, off as int, size as nat);
        reveal_with_fuel(pow256, 9);
    }
    let mut v: u64 = 0;
    let mut k: usize = size;
    let len = data.len();
    while k > 0
        invariant
            len == data@.len(),
            k <= size,
            size == 4 || size == 8,
            off + size <= data@.len(),
            v == le_bytes(data@, off + k, (size - k) as nat),
            0 <= le_bytes(data@, off + k, (size - k) as nat) < pow256((size - k) as nat),
            pow256(8) == 0x1_0000_0000_0000_0000,
            pow256(7) == 0x100_0000_0000_0000,
            pow256(6) == 0x1_0000_0000_0000,
            pow256(5) == 0x100_0000_0000,
            pow256(4) == 0x1_0000_0000,
            pow256(3) == 0x100_0000,
            pow256(2) == 0x1_0000,
            pow256(1) == 0x100,
            pow256(0) == 1,
        decreases k,
    {
        k = k - 1;
        proof {
            le_bytes_bound(data@, off + k, (size - k) as nat);
            assert(le_bytes(data@, off + k, (size - k) as nat) == data@[off + k] + 256 * le_bytes(data@, off + k + 1,
                (size - k - 1) as nat));
            pow256_mono((size - k - 1) as nat, 7);
            assert(v < 0x100_0000_0000_0000);
        }
        v = v * 256 + data[off + k] as u64;
    }
    v
}


/// The position along a block axis that position `i` reads from when only
/// `n` positions of the axis lie inside the field.
pub open spec fn pad_index(i: int, n: int) -> int {
    if i < n {
        i
    } else if i == 3 {
        0
    } else {
        n - 1
    }
}

/// The coordinate along axis `a` of position `q` of a block, the first axis fastest.
pub open spec fn digit(q: int, a: int) -> int {
    if a == 0 {
        q % 4
    } else if a == 1 {
        (q / 4) % 4
    } else if a == 2 {
        (q / 16) % 4
    } else {
        (q / 64) % 4
    }
}

/// A block grid laid out over its effective strides, whose offsets fit an `isize`.
pub open spec fn plan_wf(p: FieldPlan) -> bool {
    let d = p.dims_enum.count();
    &&& p.dims_enum == spec_dimensionality(p.dims)
    &&& spec_effective_strides(p.dims, p.strides) == p.strides
    &&& span_fits(p.dims, p.strides)
    &&& p.imin == spec_index_span(p.dims, p.strides).0
    &&& p.num_blocks == spec_num_blocks(p.dims)
    &&& p.bx == blocks_on_axis(p.dims, d, 0)
    &&& p.by == blocks_on_axis(p.dims, d, 1)
    &&& p.bz == blocks_on_axis(p.dims, d, 2)
}

/// The bytes from the least to the greatest value of a grid.
pub open spec fn span_bytes(p: FieldPlan) -> int {
    (spec_index_span(p.dims, p.strides).1 - p.imin + 1) * p.scalar_type.spec_size()
}

/// The coordinate of block `b` along axis `a`, the first axis fastest.
pub open spec fn block_coord(p: FieldPlan, b: int, a: int) -> int {
    let pq = p.bx * p.by * p.bz;
    let q = p.bx * p.by;
    let rem = b % pq;
    if a == 3 {
        b / pq
    } else if a == 2 {
        rem / q
    } else if a == 1 {
        (rem % q) / p.bx as int
    } else {
        (rem % q) % p.bx as int
    }
}

/// The number of positions of block `b` along axis `a` inside the field.
pub open spec fn block_len(p: FieldPlan, b: int, a: int) -> int {
    let n = p.dims[a] - 4 * block_coord(p, b, a);
    if n < 4 {
        n
    } else {
        4
    }
}

/// The offset contributed by axis `a` to position `q` of block `b` (zero for an inactive axis).
pub open spec fn axis_term(p: FieldPlan, b: int, q: int, a: int) -> int {
    if a < p.dims_enum.count() {
        (4 * block_coord(p, b, a) + pad_index(digit(q, a), block_len(p, b, a))) * p.strides[a]
    } else {
        0
    }
}

/// The index of the value that position `q` of block `b` stands for, counted
/// from the least value of the field.
pub open spec fn value_index(p: FieldPlan, b: int, q: int) -> int {
    axis_term(p, b, q, 0) + axis_term(p, b, q, 1) + axis_term(p, b, q, 2) + axis_term(p, b, q, 3) - p.imin
}

/// Whether position `q` of block `b` lies inside the field.
pub open spec fn inside(p: FieldPlan, b: int, q: int) -> bool {
    let d = p.dims_enum.count();
    &&& digit(q, 0) < block_len(p, b, 0)
    &&& (d >= 2 ==> digit(q, 1) < block_len(p, b, 1))
    &&& (d >= 3 ==> digit(q, 2) < block_len(p, b, 2))
    &&& (d >= 4 ==> digit(q, 3) < block_len(p, b, 3))
}

/// The raw values of block `b`, each read as `size` little-endian bytes.
pub open spec fn gathered(data: Seq<u8>, p: FieldPlan, b: int) -> Seq<u64> {
    let size = p.scalar_type.spec_size();
    Seq::new(
        pow4n(p.dims_enum.count()) as nat,
        |q: int| le_bytes(data, value_index(p, b, q) * size, size) as u64,
    )
}

proof fn lemma_grid_product(p: FieldPlan)
    requires
        plan_wf(p),
    ensures
        p.num_blocks == p.bx * p.by * p.bz * blocks_on_axis(p.dims, p.dims_enum.count(), 3),
{
    let d = p.dims_enum.count();
    assert(d == 1 ==> p.by == 1 && p.bz == 1 && blocks_on_axis(p.dims, d, 3) == 1);
    assert(d == 2 ==> p.bz == 1 && blocks_on_axis(p.dims, d, 3) == 1);
    assert(d == 3 ==> blocks_on_axis(p.dims, d, 3) == 1);
}

/// Every coordinate of a block in the grid is below the block count of its axis.
proof fn lemma_coords_in_grid(p: FieldPlan, b: int)
    requires
        plan_wf(p),
        0 <= b < p.num_blocks,
    ensures
        p.bx >= 1 && p.by >= 1 && p.bz >= 1,
        p.bx * p.by * p.bz <= usize::MAX,
        forall|a: int| 0 <= a < 4 ==> 0 <= #[trigger] block_coord(p, b, a) < blocks_on_axis(p.dims, p.dims_enum.count(), a),
{
    lemma_grid_product(p);
    let d = p.dims_enum.count();
    let bx = p.bx as int;
    let by = p.by as int;
    let bz = p.bz as int;
    let bw = blocks_on_axis(p.dims, d, 3);
    assert(bw >= 0 && bx >= 0 && by >= 0 && bz >= 0);
    assert(bx >= 1 && by >= 1 && bz >= 1 && bw >= 1) by (nonlinear_arith)
        requires
            bw >= 0 && bx >= 0 && by >= 0 && bz >= 0,
            b < bx * by * bz * bw,
            0 <= b,
    ;
    assert(bx * by * bz <= bx * by * bz * bw) by (nonlinear_arith)
        requires
            bx >= 1 && by >= 1 && bz >= 1 && bw >= 1,
    ;
    let pq = bx * by * bz;
    let q = bx * by;
    assert(q >= 1 && pq >= 1) by (nonlinear_arith)
        requires
            bx >= 1 && by >= 1 && bz >= 1,
            q == bx * by,
            pq == bx * by * bz,
    ;
    let rem = b % pq;
    assert(b / pq < bw) by (nonlinear_arith)
        requires
            0 <= b < pq * bw,
            pq >= 1,
    ;
    assert(0 <= rem < pq);
    assert(rem / q < bz) by (nonlinear_arith)
        requires
            0 <= rem < pq,
            pq == q * bz,
            q >= 1,
    ;
    assert(0 <= rem % q < q);
    assert((rem % q) / bx < by) by (nonlinear_arith)
        requires
            0 <= rem % q < bx * by,
            bx >= 1,
    ;
    assert(0 <= b / pq && 0 <= rem / q && 0 <= (rem % q) / bx) by (nonlinear_arith)
        requires
            0 <= b && 0 <= rem && 0 <= rem % q,
            pq >= 1 && q >= 1 && bx >= 1,
    ;
    assert forall|a: int| 0 <= a < 4 implies 0 <= #[trigger] block_coord(p, b, a) < blocks_on_axis(p.dims, d, a) by {
        if a == 0 {
            assert(block_coord(p, b, 0) == (rem % q) % bx);
        } else if a == 1 {
            assert(block_coord(p, b, 1) == (rem % q) / bx);
        } else if a == 2 {
            assert(block_coord(p, b, 2) == rem / q);
        } else {
            assert(block_coord(p, b, 3) == b / pq);
        }
    }
}

/// Along an active axis, the value that a position of a block reads lies inside the field.
proof fn lemma_axis_position(p: FieldPlan, b: int, q: int, a: int)
    requires
        plan_wf(p),
        0 <= b < p.num_blocks,
        0 <= a < p.dims_enum.count(),
    ensures
        1 <= block_len(p, b, a) <= 4,
        0 <= 4 * block_coord(p, b, a) + pad_index(digit(q, a), block_len(p, b, a)) < p.dims[a],
        min0(axis_extent(p.dims, p.strides, a)) <= axis_term(p, b, q, a) <= max0(axis_extent(p.dims, p.strides, a)),
{
    lemma_coords_in_grid(p, b);
    let d = p.dims_enum.count();
    let c = block_coord(p, b, a);
    assert(0 <= c < blocks_along(p.dims[a]));
    let n = p.dims[a] as int;
    assert(4 * c <= n - 1);
    let l = block_len(p, b, a);
    let i = digit(q, a);
    assert(0 <= i < 4);
    let k = 4 * c + pad_index(i, l);
    assert(0 <= k <= n - 1);
    let s = p.strides[a] as int;
    assert(axis_extent(p.dims, p.strides, a) == s * (n - 1));
    assert(axis_term(p, b, q, a) == k * s);
    if s >= 0 {
        assert(0 <= k * s <= s * (n - 1)) by (nonlinear_arith)
            requires
                s >= 0,
                0 <= k <= n - 1,
        ;
    } else {
        assert(s * (n - 1) <= k * s <= 0) by (nonlinear_arith)
            requires
                s < 0,
                0 <= k <= n - 1,
        ;
    }
}

/// Every position of a block of the grid stands for a value between the least
/// and the greatest of the field.
pub(crate) proof fn lemma_value_index_bounds(p: FieldPlan, b: int, q: int)
    requires
        plan_wf(p),
        0 <= b < p.num_blocks,
    ensures
        0 <= value_index(p, b, q) <= spec_index_span(p.dims, p.strides).1 - p.imin,
{
    let d = p.dims_enum.count();
    assert forall|a: int| 0 <= a < 4 implies min0(#[trigger] axis_extent(p.dims, p.strides, a)) <= axis_term(p, b, q, a)
        <= max0(axis_extent(p.dims, p.strides, a)) || a >= d by {
        if a < d {
            lemma_axis_position(p, b, q, a);
        }
    }
}


fn pad_exec(i: usize, n: usize) -> (r: usize)
    requires
        1 <= n <= 4,
        i < 4,
    ensures
        r == pad_index(i as int, n as int),
        r < n,
{
    if i < n {
        i
    } else if i == 3 {
        0
    } else {
        n - 1
    }
}

/// The coordinates of block `b` and the number of its positions inside the
/// field along each active axis (one along an inactive axis).
pub fn block_geometry(p: &FieldPlan, b: usize) -> (r: ([usize; 4], [usize; 4]))
    requires
        plan_wf(*p),
        b < p.num_blocks,
    ensures
        forall|a: int| 0 <= a < 4 ==> r.0[a] == #[trigger] block_coord(*p, b as int, a),
        forall|a: int| 0 <= a < 4 ==> 1 <= #[trigger] r.1[a] <= 4,
        forall|a: int| 0 <= a < p.dims_enum.count() ==> r.1[a] == #[trigger] block_len(*p, b as int, a),
{
    proof {
        lemma_coords_in_grid(*p, b as int);
        let d = p.dims_enum.count() as int;
        assert forall|a: int| 0 <= a < d implies 1 <= #[trigger] block_len(*p, b as int, a) <= 4 by {
            lemma_axis_position(*p, b as int, 0, a);
        }
    }
    let (cx, cy, cz, cw) = p.block_coords(b);
    let d = p.dim_count();
    let c: [usize; 4] = [cx, cy, cz, cw];
    let mut l: [usize; 4] = [1, 1, 1, 1];
    let mut a: usize = 0;
    while a < d
        invariant
            d == p.dims_enum.count(),
            a <= d <= 4,
            plan_wf(*p),
            b < p.num_blocks,
            forall|j: int| 0 <= j < 4 ==> c[j] == #[trigger] block_coord(*p, b as int, j),
            forall|j: int| 0 <= j < d ==> 1 <= #[trigger] block_len(*p, b as int, j) <= 4,
            forall|j: int| 0 <= j < 4 ==> 1 <= #[trigger] l[j] <= 4,
            forall|j: int| 0 <= j < a ==> l[j] == #[trigger] block_len(*p, b as int, j),
        decreases d - a,
    {
        assert(1 <= block_len(*p, b as int, a as int) <= 4);
        let n = p.dims[a] - 4 * c[a];
        l[a] = if n < 4 { n } else { 4 };
        a = a + 1;
    }
    (c, l)
}

/// The byte offset of the value that position `q` of block `b` stands for.
fn value_offset(p: &FieldPlan, c: &[usize; 4], l: &[usize; 4], q: usize, Ghost(b): Ghost<int>) -> (r: usize)
    requires
        plan_wf(*p),
        0 <= b < p.num_blocks,
        q < pow4n(p.dims_enum.count()),
        span_bytes(*p) <= usize::MAX,
        forall|a: int| 0 <= a < 4 ==> c[a] == #[trigger] block_coord(*p, b, a),
        forall|a: int| 0 <= a < p.dims_enum.count() ==> l[a] == #[trigger] block_len(*p, b, a),
    ensures
        r == value_index(*p, b, q as int) * p.scalar_type.spec_size(),
        r + p.scalar_type.spec_size() <= span_bytes(*p),
{
    let d = p.dim_count();
    let size = p.elem_size();
    let ghost hi = spec_index_span(p.dims, p.strides).1;
    proof {
        lemma_value_index_bounds(*p, b, q as int);
        assert forall|a: int| 0 <= a < d implies 0 <= 4 * c[a] + pad_index(#[trigger] digit(q as int, a), l[a] as int)
            < p.dims[a] && 1 <= l[a] <= 4 by {
            lemma_axis_position(*p, b, q as int, a);
        }
        assert forall|a: int| 0 <= a < d implies min0(#[trigger] axis_extent(p.dims, p.strides, a)) <= axis_term(*p, b,
            q as int, a) <= max0(axis_extent(p.dims, p.strides, a)) by {
            lemma_axis_position(*p, b, q as int, a);
        }
        assert(span_fits(p.dims, p.strides));
        assert(isize::MIN <= axis_extent(p.dims, p.strides, 0) <= isize::MAX);
        assert(isize::MIN <= axis_extent(p.dims, p.strides, 1) <= isize::MAX);
        assert(isize::MIN <= axis_extent(p.dims, p.strides, 2) <= isize::MAX);
        assert(isize::MIN <= axis_extent(p.dims, p.strides, 3) <= isize::MAX);
    }
    let mut idx: i128 = 0 - (p.imin as i128);
    let k0 = 4 * c[0] + pad_exec(q % 4, l[0]);
    idx = idx + (k0 as i128) * (p.strides[0] as i128);
    if d >= 2 {
        let k1 = 4 * c[1] + pad_exec((q / 4) % 4, l[1]);
        idx = idx + (k1 as i128) * (p.strides[1] as i128);
    }
    if d >= 3 {
        let k2 = 4 * c[2] + pad_exec((q / 16) % 4, l[2]);
        idx = idx + (k2 as i128) * (p.strides[2] as i128);
    }
    if d >= 4 {
        let k3 = 4 * c[3] + pad_exec((q / 64) % 4, l[3]);
        idx = idx + (k3 as i128) * (p.strides[3] as i128);
    }
    proof {
        assert(idx == value_index(*p, b, q as int));
        assert(0 <= idx <= hi - p.imin);
        assert((idx + 1) * size <= (hi - p.imin + 1) * size) by (nonlinear_arith)
            requires
                idx + 1 <= hi - p.imin + 1,
                size >= 0,
        ;
    }
    (idx as usize) * size
}

/// Read the raw values of block `b`: each position reads the value it stands
/// for, as `size` little-endian bytes.
pub fn gather_block(data: &[u8], p: &FieldPlan, b: usize) -> (r: Vec<u64>)
    requires
        plan_wf(*p),
        b < p.num_blocks,
        span_bytes(*p) <= data@.len(),
    ensures
        r@ == gathered(data@, *p, b as int),
{
    let (c, l) = block_geometry(p, b);
    let d = p.dim_count();
    let size = p.elem_size();
    let n: usize = if d == 1 { 4 } else if d == 2 { 16 } else if d == 3 { 64 } else { 256 };
    let ghost g = gathered(data@, *p, b as int);
    let len = data.len();
    let mut out: Vec<u64> = Vec::new();
    let mut q: usize = 0;
    while q < n
        invariant
            n == pow4n(p.dims_enum.count()),
            d == p.dims_enum.count(),
            size == p.scalar_type.spec_size(),
            q <= n,
            plan_wf(*p),
            b < p.num_blocks,
            span_bytes(*p) <= data@.len(),
            len == data@.len(),
            forall|a: int| 0 <= a < 4 ==> c[a] == #[trigger] block_coord(*p, b as int, a),
            forall|a: int| 0 <= a < p.dims_enum.count() ==> l[a] == #[trigger] block_len(*p, b as int, a),
            g == gathered(data@, *p, b as int),
            out@ == g.take(q as int),
        decreases n - q,
    {
        let off = value_offset(p, &c, &l, q, Ghost(b as int));
        let v = read_le(data, off, size);
        proof {
            assert(g[q as int] == v);
            assert(g.take(q + 1) =~= g.take(q as int).push(v));
        }
        out.push(v);
        q = q + 1;
    }
    proof {
        assert(g.take(n as int) =~= g);
    }
    out
}

/// `data` with the values of block `vals` written, in position order, to the
/// positions of block `b` up to `k` that lie inside the field.
pub open spec fn scattered(data: Seq<u8>, p: FieldPlan, b: int, vals: Seq<u64>, k: int) -> Seq<u8>
    decreases k,
{
    if k <= 0 {
        data
    } else {
        let prev = scattered(data, p, b, vals, k - 1);
        if inside(p, b, k - 1) {
            put_le(prev, value_index(p, b, k - 1) * p.scalar_type.spec_size(), p.scalar_type.spec_size(), vals[k - 1] as int)
        } else {
            prev
        }
    }
}

proof fn lemma_div256(v: int, j: nat)
    requires
        v >= 0,
    ensures
        (v / pow256(j)) / 256 == v / pow256(j + 1),
        pow256(j + 1) == pow256(j) * 256,
{
    pow256_mono(0, j);
    assert(pow256(j + 1) == 256 * pow256(j));
    vstd::arithmetic::div_mod::lemma_div_denominator(v, pow256(j), 256);
}

/// Store `v` as `size` little-endian bytes of `data` from `off`.
pub fn write_le(data: &mut [u8], off: usize, size: usize, v: u64)
    requires
        size == 4 || size == 8,
        off + size <= old(data)@.len(),
    ensures
        final(data)@ == put_le(old(data)@, off as int, size as nat, v as int),
{
    let ghost d0 = data@;
    let len = data.len();
    let mut w: u64 = v;
    let mut j: usize = 0;
    while j < size
        invariant
            size == 4 || size == 8,
            off + size <= d0.len(),
            j <= size,
            data@.len() == d0.len(),
            len == d0.len(),
            w == (v as int) / pow256(j as nat),
            forall|i: int| 0 <= i < d0.len() && !(off <= i < off + j) ==> #[trigger] data@[i] == d0[i],
            forall|i: int| off <= i < off + j ==> #[trigger] data@[i] == (((v as int) / pow256((i - off) as nat)) % 256) as u8,
        decreases size - j,
    {
        proof {
            lemma_div256(v as int, j as nat);
        }
        data[off + j] = (w % 256) as u8;
        w = w / 256;
        j = j + 1;
    }
    proof {
        assert(data@ =~= put_le(d0, off as int, size as nat, v as int));
    }
}

/// Write the values `vals` of block `b` to the positions of the block that lie
/// inside the field, in position order.
pub fn scatter_block(data: &mut [u8], p: &FieldPlan, b: usize, vals: &[u64])
    requires
        plan_wf(*p),
        b < p.num_blocks,
        span_bytes(*p) <= old(data)@.len(),
        vals@.len() == pow4n(p.dims_enum.count()),
    ensures
        final(data)@ == scattered(old(data)@, *p, b as int, vals@, vals@.len() as int),
{
    let (c, l) = block_geometry(p, b);
    let d = p.dim_count();
    let size = p.elem_size();
    let n = vals.len();
    let ghost d0 = data@;
    let len = data.len();
    let mut q: usize = 0;
    while q < n
        invariant
            n == pow4n(p.dims_enum.count()),
            n == vals@.len(),
            d == p.dims_enum.count(),
            size == p.scalar_type.spec_size(),
            q <= n,
            plan_wf(*p),
            b < p.num_blocks,
            span_bytes(*p) <= data@.len(),
            data@.len() == d0.len(),
            len == d0.len(),
            forall|a: int| 0 <= a < 4 ==> c[a] == #[trigger] block_coord(*p, b as int, a),
            forall|a: int| 0 <= a < p.dims_enum.count() ==> l[a] == #[trigger] block_len(*p, b as int, a),
            data@ == scattered(d0, *p, b as int, vals@, q as int),
        decreases n - q,
    {
        let x = q % 4;
        let y = (q / 4) % 4;
        let z = (q / 16) % 4;
        let w = (q / 64) % 4;
        let ins = x < l[0] && (d < 2 || y < l[1]) && (d < 3 || z < l[2]) && (d < 4 || w < l[3]);
        proof {
            assert(ins == inside(*p, b as int, q as int));
        }
        if ins {
            let off = value_offset(p, &c, &l, q, Ghost(b as int));
            write_le(data, off, size, vals[q]);
        }
        q = q + 1;
    }
}


/// Writing the values of a block keeps the number of bytes.
pub proof fn lemma_scattered_len(data: Seq<u8>, p: FieldPlan, b: int, vals: Seq<u64>, k: int)
    ensures
        scattered(data, p, b, vals, k).len() == data.len(),
    decreases k,
{
    if k > 0 {
        lemma_scattered_len(data, p, b, vals, k - 1);
    }
}


pub(crate) proof fn lemma_pow256_pos(n: nat)
    ensures
        pow256(n) >= 1,
{
    pow256_mono(0, n);
}

pub(crate) proof fn lemma_pow256_mono_pub(a: nat, b: nat)
    requires
        a <= b,
    ensures
        1 <= pow256(a) <= pow256(b),
{
    pow256_mono(a, b);
}

} // verus!
