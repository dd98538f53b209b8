//! The block grid of a field about to be coded: its checks against the
//! buffer, the block counts along each axis, and the position of a block.

use vstd::prelude::*;
use crate::codec::gather::{plan_wf, span_bytes};
use crate::field::{
    blocks_along, checked_size_bytes, effective_strides, field_index_span, lemma_checked_size_covers_span,
    lemma_checked_size_fits, span_fits, spec_checked_size_bytes, spec_dimensionality, spec_effective_strides,
    spec_index_span, spec_num_blocks,
};
use crate::types::{ZfpDimensionality, ZfpScalarType};

verus! {

/// Why a field cannot be coded.
#[derive(Debug, Clone, Copy, PartialEq, Eq, Structural)]
pub enum PlanError {
    /// The field has no data buffer.
    NoData,
    /// The field spans more bytes than its buffer holds.
    InvalidField { required: usize, actual: usize },
    /// The field's buffer is not aligned for its scalar type.
    MisalignedData { align: usize },
}

/// The block grid of a field.
pub struct FieldPlan {
    /// The number of blocks.
    pub num_blocks: usize,
    /// Blocks along the first axis.
    pub bx: usize,
    /// Blocks along the second axis (one if it is not active).
    pub by: usize,
    /// Blocks along the third axis (one if it is not active).
    pub bz: usize,
    /// The least value offset of the field, relative to its origin.
    pub imin: isize,
    /// The strides in effect.
    pub strides: [isize; 4],
    /// The extents.
    pub dims: [usize; 4],
    /// The dimensionality.
    pub dims_enum: ZfpDimensionality,
    /// The scalar type.
    pub scalar_type: ZfpScalarType,
}

/// Blocks along axis `a` of extents `dims` with `d` active axes (one for an inactive axis).
pub open spec fn blocks_on_axis(dims: [usize; 4], d: nat, a: int) -> int {
    if a < d {
        blocks_along(dims[a])
    } else {
        1
    }
}

fn blocks_exec(n: usize) -> (r: usize)
    ensures
        r == blocks_along(n),
{
    n / 4 + (if n % 4 == 0 { 0 } else { 1 })
}

/// An axis that may alias: its stride's magnitude and its extent.
pub open spec fn alias_axes(strides: [isize; 4], dims: [usize; 4], d: int) -> Seq<(int, int)> {
    keep_wide(axis_list(strides, dims).take(d))
}

/// The axes of `s` of extent two or more, in order.
pub open spec fn keep_wide(s: Seq<(int, int)>) -> Seq<(int, int)>
    decreases s.len(),
{
    if s.len() == 0 {
        s
    } else {
        let sub = keep_wide(s.drop_last());
        if s.last().1 >= 2 {
            sub.push(s.last())
        } else {
            sub
        }
    }
}

/// Each axis as its stride's magnitude and its extent.
pub open spec fn axis_list(strides: [isize; 4], dims: [usize; 4]) -> Seq<(int, int)> {
    Seq::new(4, |i: int| (abs(strides[i] as int), dims[i] as int))
}

/// `|x|`.
pub open spec fn abs(x: int) -> int {
    if x < 0 {
        -x
    } else {
        x
    }
}

/// Whether `x` orders before or equal to `y`, first by stride then by extent.
pub open spec fn lex_le(x: (int, int), y: (int, int)) -> bool {
    x.0 < y.0 || (x.0 == y.0 && x.1 <= y.1)
}

/// `x` inserted into `s` before the first element that is not below it.
pub open spec fn insert_sorted(x: (int, int), s: Seq<(int, int)>) -> Seq<(int, int)>
    decreases s.len(),
{
    if s.len() == 0 {
        seq![x]
    } else if lex_le(x, s[0]) {
        seq![x] + s
    } else {
        seq![s[0]] + insert_sorted(x, s.drop_first())
    }
}

/// `s` sorted by inserting its elements one by one.
pub open spec fn sort_axes(s: Seq<(int, int)>) -> Seq<(int, int)>
    decreases s.len(),
{
    if s.len() == 0 {
        s
    } else {
        insert_sorted(s.last(), sort_axes(s.drop_last()))
    }
}

/// Whether some axis of `s` from `i` on starts before the values reached by
/// the axes before it (`reach` counts them, saturating at `usize::MAX`).
pub open spec fn reaches_back(s: Seq<(int, int)>, i: int, reach: int) -> bool
    decreases s.len() - i,
{
    if i >= s.len() || i < 0 {
        false
    } else if s[i].0 < reach {
        true
    } else {
        let next = s[i].0 * (s[i].1 - 1) + reach;
        reaches_back(s, i + 1, if next > usize::MAX { usize::MAX as int } else { next })
    }
}

impl FieldPlan {
    /// Check a field's buffer and lay out its block grid: `NoData` for an
    /// empty buffer, `InvalidField` for a buffer of fewer than `required` bytes.
    pub fn new(
        scalar_type: ZfpScalarType,
        dims: [usize; 4],
        dims_enum: ZfpDimensionality,
        strides: [isize; 4],
        data: &[u8],
        required: usize,
    ) -> (r: Result<FieldPlan, PlanError>)
        requires
            dims_enum == spec_dimensionality(dims),
            (data@.len() > 0 && data@.len() >= required) ==> span_fits(dims, strides) && spec_num_blocks(dims)
                <= usize::MAX,
        ensures
            data@.len() == 0 ==> r == Err::<FieldPlan, PlanError>(PlanError::NoData),
            data@.len() > 0 && data@.len() < required ==> r == Err::<FieldPlan, PlanError>(
                PlanError::InvalidField { required, actual: data@.len() as usize },
            ),
            data@.len() > 0 && data@.len() >= required ==> (r matches Ok(p) && {
                let d = dims_enum.count();
                &&& p.num_blocks == spec_num_blocks(dims)
                &&& p.bx == blocks_on_axis(dims, d, 0)
                &&& p.by == blocks_on_axis(dims, d, 1)
                &&& p.bz == blocks_on_axis(dims, d, 2)
                &&& p.imin == spec_index_span(dims, strides).0
                &&& p.strides == strides
                &&& p.dims == dims
                &&& p.dims_enum == dims_enum
                &&& p.scalar_type == scalar_type
            }),
    {
        if data.len() == 0 {
            return Err(PlanError::NoData);
        }
        let actual = data.len();
        if actual < required {
            return Err(PlanError::InvalidField { required, actual });
        }
        let d = dims_enum.as_usize();
        let bx = blocks_exec(dims[0]);
        let by = if d >= 2 { blocks_exec(dims[1]) } else { 1 };
        let bz = if d >= 3 { blocks_exec(dims[2]) } else { 1 };
        let bw = if d >= 4 { blocks_exec(dims[3]) } else { 1 };
        proof {
            assert(bz >= 1 && bw >= 1);
            assert(bx * by * bz * bw == spec_num_blocks(dims));
            assert(bx * by <= bx * by * bz * bw && bx * by * bz <= bx * by * bz * bw) by (nonlinear_arith)
                requires
                    bz >= 1,
                    bw >= 1,
                    bx >= 0,
                    by >= 0,
            ;
        }
        let num_blocks = bx * by * bz * bw;
        let (imin, _imax) = field_index_span(&dims, &strides);
        Ok(FieldPlan { num_blocks, bx, by, bz, imin, strides, dims, dims_enum, scalar_type })
    }

    /// The number of active axes.
    pub fn dim_count(&self) -> (r: usize)
        ensures
            r == self.dims_enum.count(),
    {
        self.dims_enum.as_usize()
    }

    /// Bytes per value.
    pub fn elem_size(&self) -> (r: usize)
        ensures
            r == self.scalar_type.spec_size(),
    {
        self.scalar_type.size()
    }

    /// The position `(ix, iy, iz, iw)` of block `block_idx` in the grid, the
    /// first axis varying fastest.
    pub fn block_coords(&self, block_idx: usize) -> (r: (usize, usize, usize, usize))
        requires
            self.bx >= 1,
            self.by >= 1,
            self.bz >= 1,
            self.bx * self.by * self.bz <= usize::MAX,
        ensures
            ({
                let p = self.bx as int * self.by as int * self.bz as int;
                let q = self.bx as int * self.by as int;
                let rem = block_idx as int % p;
                &&& r.3 == block_idx as int / p
                &&& r.2 == rem / q
                &&& r.1 == (rem % q) / self.bx as int
                &&& r.0 == (rem % q) % self.bx as int
            }),
    {
        proof {
            assert(self.bx * self.by <= self.bx * self.by * self.bz) by (nonlinear_arith)
                requires
                    self.bz >= 1,
                    self.bx >= 1,
                    self.by >= 1,
            ;
            assert(self.bx * self.by >= 1) by (nonlinear_arith)
                requires
                    self.bx >= 1,
                    self.by >= 1,
            ;
        }
        let p = self.bx * self.by * self.bz;
        let q = self.bx * self.by;
        let iw = block_idx / p;
        let rem = block_idx % p;
        let iz = rem / q;
        let rem = rem % q;
        let iy = rem / self.bx;
        let ix = rem % self.bx;
        (ix, iy, iz, iw)
    }
}


proof fn insert_sorted_at(x: (int, int), s: Seq<(int, int)>, pos: int)
    requires
        0 <= pos <= s.len(),
        forall|j: int| 0 <= j < pos ==> !lex_le(x, #[trigger] s[j]),
        pos < s.len() ==> lex_le(x, s[pos]),
    ensures
        insert_sorted(x, s) == s.subrange(0, pos) + seq![x] + s.subrange(pos, s.len() as int),
    decreases s.len(),
{
    if s.len() == 0 {
        assert(s.subrange(0, pos) + seq![x] + s.subrange(pos, s.len() as int) =~= seq![x]);
    } else if pos == 0 {
        assert(s.subrange(0, 0) + seq![x] + s.subrange(0, s.len() as int) =~= seq![x] + s);
    } else {
        let t = s.drop_first();
        assert forall|j: int| 0 <= j < pos - 1 implies !lex_le(x, #[trigger] t[j]) by {
            assert(t[j] == s[j + 1]);
        }
        insert_sorted_at(x, t, pos - 1);
        assert(seq![s[0]] + (t.subrange(0, pos - 1) + seq![x] + t.subrange(pos - 1, t.len() as int)) =~= s.subrange(0,
            pos) + seq![x] + s.subrange(pos, s.len() as int));
    }
}

impl FieldPlan {
    /// Whether two values of the field may share a position in the buffer:
    /// with the active axes of extent two or more ordered by stride magnitude,
    /// some axis starts before the values that the axes before it reach.
    pub fn strides_may_alias(&self) -> (r: bool)
        ensures
            r == reaches_back(sort_axes(alias_axes(self.strides, self.dims, self.dims_enum.count() as int)), 0, 1),
    {
        let d = self.dim_count();
        let mut sorted: Vec<(usize, usize)> = Vec::new();
        let ghost all = axis_list(self.strides, self.dims);
        let mut a: usize = 0;
        while a < d
            invariant
                d == self.dims_enum.count(),
                a <= d <= 4,
                all == axis_list(self.strides, self.dims),
                sorted@.map_values(|p: (usize, usize)| (p.0 as int, p.1 as int)) == sort_axes(
                    keep_wide(all.take(a as int)),
                ),
                forall|j: int| 0 <= j < sorted@.len() ==> #[trigger] sorted@[j].1 >= 2,
            decreases d - a,
        {
            let stride = self.strides[a];
            let mag: usize = if stride < 0 {
                (0 - (stride as i128)) as usize
            } else {
                stride as usize
            };
            let dim = self.dims[a];
            let ghost before = sorted@.map_values(|p: (usize, usize)| (p.0 as int, p.1 as int));
            let ghost x = (mag as int, dim as int);
            proof {
                assert(x == all[a as int]);
                assert(all.take(a + 1).drop_last() =~= all.take(a as int));
                assert(all.take(a + 1).last() == all[a as int]);
            }
            if dim >= 2 {
                let mut pos: usize = 0;
                while pos < sorted.len() && !(mag < sorted[pos].0 || (mag == sorted[pos].0 && dim <= sorted[pos].1))
                    invariant
                        pos <= sorted@.len(),
                        before == sorted@.map_values(|p: (usize, usize)| (p.0 as int, p.1 as int)),
                        x == (mag as int, dim as int),
                        forall|j: int| 0 <= j < pos ==> !lex_le(x, #[trigger] before[j]),
                    decreases sorted@.len() - pos,
                {
                    pos = pos + 1;
                }
                proof {
                    insert_sorted_at(x, before, pos as int);
                }
                let ghost old_sorted = sorted@;
                sorted.insert(pos, (mag, dim));
                proof {
                    assert(sorted@.map_values(|p: (usize, usize)| (p.0 as int, p.1 as int)) =~= before.subrange(0,
                        pos as int) + seq![x] + before.subrange(pos as int, before.len() as int));
                    let f0 = keep_wide(all.take(a as int));
                    assert(keep_wide(all.take(a + 1)) == f0.push(x));
                    assert(f0.push(x).drop_last() =~= f0);
                    assert(forall|j: int| 0 <= j < sorted@.len() ==> #[trigger] sorted@[j].1 >= 2) by {
                        assert forall|j: int| 0 <= j < sorted@.len() implies #[trigger] sorted@[j].1 >= 2 by {
                            if j < pos {
                                assert(sorted@[j] == old_sorted[j]);
                            } else if j > pos {
                                assert(sorted@[j] == old_sorted[j - 1]);
                            }
                        }
                    }
                }
            } else {
                proof {
                    assert(keep_wide(all.take(a + 1)) == keep_wide(all.take(a as int)));
                }
            }
            a = a + 1;
        }
        let ghost ss = sorted@.map_values(|p: (usize, usize)| (p.0 as int, p.1 as int));
        proof {
            assert(all.take(d as int) == axis_list(self.strides, self.dims).take(self.dims_enum.count() as int));
        }
        let mut reach: usize = 1;
        let mut i: usize = 0;
        while i < sorted.len()
            invariant
                i <= sorted@.len(),
                ss == sorted@.map_values(|p: (usize, usize)| (p.0 as int, p.1 as int)),
                reaches_back(ss, i as int, reach as int) == reaches_back(ss, 0, 1),
                ss == sort_axes(alias_axes(self.strides, self.dims, self.dims_enum.count() as int)),
                forall|j: int| 0 <= j < sorted@.len() ==> #[trigger] sorted@[j].1 >= 2,
            decreases sorted@.len() - i,
        {
            let (stride, dim) = sorted[i];
            assert(ss[i as int] == (stride as int, dim as int));
            if stride < reach {
                proof {
                    assert(ss.len() == sorted@.len());
                    assert(reaches_back(ss, i as int, reach as int));
                }
                return true;
            }
            let s128: u128 = stride as u128;
            let d128: u128 = (dim - 1) as u128;
            assert(s128 * d128 <= 0xffff_ffff_ffff_ffff * 0xffff_ffff_ffff_ffff) by (nonlinear_arith)
                requires
                    s128 <= 0xffff_ffff_ffff_ffff,
                    d128 <= 0xffff_ffff_ffff_ffff,
            ;
            let prod: u128 = s128 * d128 + reach as u128;
            reach = if prod > usize::MAX as u128 { usize::MAX } else { prod as usize };
            i = i + 1;
        }
        false
    }
}


/// The block grid of a field with extents `dims` laid out over the effective
/// strides `eff`.
pub open spec fn spec_grid(ty: ZfpScalarType, dims: [usize; 4], eff: [isize; 4]) -> FieldPlan {
    let d = spec_dimensionality(dims);
    FieldPlan {
        num_blocks: spec_num_blocks(dims) as usize,
        bx: blocks_on_axis(dims, d.count(), 0) as usize,
        by: blocks_on_axis(dims, d.count(), 1) as usize,
        bz: blocks_on_axis(dims, d.count(), 2) as usize,
        imin: spec_index_span(dims, eff).0 as isize,
        strides: eff,
        dims,
        dims_enum: d,
        scalar_type: ty,
    }
}

/// The bytes a field needs: its checked byte count, or `usize::MAX` when
/// that does not fit.
pub open spec fn spec_required(ty: ZfpScalarType, dims: [usize; 4], strides: [isize; 4]) -> int {
    match spec_checked_size_bytes(dims, strides, ty) {
        Some(v) => v,
        None => usize::MAX as int,
    }
}

/// The block grid a field of `len` bytes is coded over, or why it cannot be:
/// `NoData` for no bytes, `InvalidField` for fewer bytes than required.
pub open spec fn spec_plan(len: int, ty: ZfpScalarType, dims: [usize; 4], strides: [isize; 4]) -> Result<
    FieldPlan,
    PlanError,
> {
    if len == 0 {
        Err(PlanError::NoData)
    } else if len < spec_required(ty, dims, strides) {
        Err(PlanError::InvalidField { required: spec_required(ty, dims, strides) as usize, actual: len as usize })
    } else {
        Ok(spec_grid(ty, dims, spec_effective_strides(dims, strides)))
    }
}

/// The block count of a field that would be coded fits a `usize`.
pub open spec fn plan_fits(len: int, ty: ZfpScalarType, dims: [usize; 4], strides: [isize; 4]) -> bool {
    spec_plan(len, ty, dims, strides) is Ok ==> spec_num_blocks(dims) <= usize::MAX
}

/// Check a field's bytes against its layout and lay out its block grid.
pub fn plan_field(ty: ZfpScalarType, dims: &[usize; 4], strides: &[isize; 4], data: &[u8]) -> (r: Result<
    FieldPlan,
    PlanError,
>)
    requires
        data@.len() <= isize::MAX,
        plan_fits(data@.len() as int, ty, *dims, *strides),
    ensures
        r == spec_plan(data@.len() as int, ty, *dims, *strides),
        r matches Ok(p) ==> plan_wf(p) && span_bytes(p) <= data@.len(),
{
    if data.len() == 0 {
        return Err(PlanError::NoData);
    }
    let checked = checked_size_bytes(dims, strides, ty);
    let required = match checked {
        Some(v) => v,
        None => usize::MAX,
    };
    if data.len() < required {
        return Err(PlanError::InvalidField { required, actual: data.len() });
    }
    proof {
        lemma_checked_size_fits(*dims, *strides, ty);
        lemma_checked_size_covers_span(*dims, *strides, ty);
    }
    let eff = effective_strides(dims, strides);
    let d = crate::field::dimensionality(dims);
    let r = FieldPlan::new(ty, *dims, d, eff, data, required);
    proof {
        let p = spec_grid(ty, *dims, eff);
        let s = spec_index_span(*dims, eff);
        assert(span_fits(*dims, eff));
        assert(isize::MIN <= s.0 <= 0);
        assert(r == Ok::<FieldPlan, PlanError>(p));
        assert(plan_wf(p));
    }
    r
}


/// The grid of a field that can be coded is well formed and lies within the
/// field's bytes.
pub proof fn lemma_plan_wf(len: int, ty: ZfpScalarType, dims: [usize; 4], strides: [isize; 4])
    requires
        len <= isize::MAX,
        plan_fits(len, ty, dims, strides),
        spec_plan(len, ty, dims, strides) is Ok,
    ensures
        spec_plan(len, ty, dims, strides) matches Ok(p) && plan_wf(p) && span_bytes(p) <= len,
{
    lemma_checked_size_fits(dims, strides, ty);
    lemma_checked_size_covers_span(dims, strides, ty);
    let eff = spec_effective_strides(dims, strides);
    let p = spec_grid(ty, dims, eff);
    let s = spec_index_span(dims, eff);
    assert(span_fits(dims, eff));
    assert(isize::MIN <= s.0 <= 0);
    assert(p.imin == s.0);
    assert(plan_wf(p));
}

} // verus!
