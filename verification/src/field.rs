//! Uncompressed fields: a byte buffer, a scalar type, up to four extents and
//! strides; and the 52-bit metadata word that stores type and extents.
//!
//! Values are read from and written to the byte buffer in little-endian
//! order. An extent of zero ends the list of active axes; a stride of zero
//! stands for the natural (first axis fastest) layout.

use vstd::prelude::*;
use crate::types::{ZfpDimensionality, ZfpDims, ZfpMetadataError, ZfpScalarType, ZfpStrides};

verus! {

/// The dimensionality implied by extents: the axes before the first zero
/// extent beyond the first axis.
pub open spec fn spec_dimensionality(dims: [usize; 4]) -> ZfpDimensionality {
    if dims[1] == 0 {
        ZfpDimensionality::D1
    } else if dims[2] == 0 {
        ZfpDimensionality::D2
    } else if dims[3] == 0 {
        ZfpDimensionality::D3
    } else {
        ZfpDimensionality::D4
    }
}

/// `n`, or one for a zero extent.
pub open spec fn at_least_one(n: usize) -> int {
    if n == 0 {
        1
    } else {
        n as int
    }
}

/// The number of values: the product of the extents, zero extents counting as one.
pub open spec fn spec_num_elements(dims: [usize; 4]) -> int {
    at_least_one(dims[0]) * at_least_one(dims[1]) * at_least_one(dims[2]) * at_least_one(dims[3])
}

/// Blocks along an axis of extent `n`: one per four values or part thereof.
pub open spec fn blocks_along(n: usize) -> int {
    (n + 3) / 4
}

/// The number of blocks: the product of the block counts of the active axes.
pub open spec fn spec_num_blocks(dims: [usize; 4]) -> int {
    let d = spec_dimensionality(dims).count();
    let bx = blocks_along(dims[0]);
    if d == 1 {
        bx
    } else if d == 2 {
        bx * blocks_along(dims[1])
    } else if d == 3 {
        bx * blocks_along(dims[1]) * blocks_along(dims[2])
    } else {
        bx * blocks_along(dims[1]) * blocks_along(dims[2]) * blocks_along(dims[3])
    }
}

/// The strides in effect: a zero stride stands for the natural layout, the
/// product of the extents of the faster axes (one for the first axis).
pub open spec fn spec_effective_strides(dims: [usize; 4], strides: [isize; 4]) -> [isize; 4] {
    [
        if strides[0] != 0 { strides[0] } else { 1 },
        if strides[1] != 0 { strides[1] } else { dims[0] as isize },
        if strides[2] != 0 { strides[2] } else { (dims[0] * dims[1]) as isize },
        if strides[3] != 0 { strides[3] } else { (dims[0] * dims[1] * dims[2]) as isize },
    ]
}

/// The natural strides that stand for zero strides fit their integer type.
pub open spec fn strides_fit(dims: [usize; 4], strides: [isize; 4]) -> bool {
    &&& strides[2] == 0 ==> dims[0] * dims[1] <= usize::MAX
    &&& strides[3] == 0 ==> dims[0] * dims[1] <= usize::MAX && dims[0] * dims[1] * dims[2] <= usize::MAX
}

/// The offset of the far end of axis `a`: its stride times its extent less one
/// (zero for a zero extent).
pub open spec fn axis_extent(dims: [usize; 4], strides: [isize; 4], a: int) -> int {
    if dims[a] == 0 {
        0
    } else {
        spec_effective_strides(dims, strides)[a] * (dims[a] - 1)
    }
}

/// The least and greatest value offsets of the active axes, relative to the
/// value at the origin.
pub open spec fn spec_index_span(dims: [usize; 4], strides: [isize; 4]) -> (int, int) {
    let d = spec_dimensionality(dims).count() as int;
    let e0 = axis_extent(dims, strides, 0);
    let e1 = if d >= 2 { axis_extent(dims, strides, 1) } else { 0 };
    let e2 = if d >= 3 { axis_extent(dims, strides, 2) } else { 0 };
    let e3 = if d >= 4 { axis_extent(dims, strides, 3) } else { 0 };
    (
        min0(e0) + min0(e1) + min0(e2) + min0(e3),
        max0(e0) + max0(e1) + max0(e2) + max0(e3),
    )
}

/// `min(x, 0)`.
pub open spec fn min0(x: int) -> int {
    if x < 0 {
        x
    } else {
        0
    }
}

/// `max(x, 0)`.
pub open spec fn max0(x: int) -> int {
    if x > 0 {
        x
    } else {
        0
    }
}

/// Every offset computed for the index span fits an `isize`.
pub open spec fn span_fits(dims: [usize; 4], strides: [isize; 4]) -> bool {
    let s = spec_index_span(dims, strides);
    &&& strides_fit(dims, strides)
    &&& forall|a: int| 0 <= a < 4 ==> dims[a] <= isize::MAX && isize::MIN <= #[trigger] axis_extent(dims, strides, a)
        <= isize::MAX
    &&& isize::MIN <= s.0
    &&& s.1 - s.0 + 1 <= isize::MAX
}

/// The bytes a field spans, or `None` when a count along the way does not fit
/// its integer type: each extent times its stride, summed apart for the
/// negative and the positive ones, over every axis with a nonzero extent.
pub open spec fn spec_checked_size_bytes(dims: [usize; 4], strides: [isize; 4], ty: ZfpScalarType) -> Option<int> {
    let n01 = dims[0] * dims[1];
    let n012 = dims[0] * dims[1] * dims[2];
    if (strides[1] == 0 && dims[0] > isize::MAX) || (strides[2] == 0 && (n01 > usize::MAX || n01
        > isize::MAX)) || (strides[3] == 0 && (n01 > usize::MAX || n012 > usize::MAX || n012
        > isize::MAX)) {
        None
    } else {
        let eff = [
            if strides[0] != 0 { strides[0] as int } else { 1 },
            if strides[1] != 0 { strides[1] as int } else { dims[0] as int },
            if strides[2] != 0 { strides[2] as int } else { n01 },
            if strides[3] != 0 { strides[3] as int } else { n012 },
        ];
        checked_span(dims, eff, 0, 0, 0, ty)
    }
}

/// The checked span from axis `a` on, with the partial sums `lo` and `hi`.
pub open spec fn checked_span(dims: [usize; 4], eff: [int; 4], a: int, lo: int, hi: int, ty: ZfpScalarType) -> Option<int>
    decreases 4 - a,
{
    if a >= 4 {
        let span = hi - lo;
        if span > isize::MAX || span + 1 > isize::MAX || (span + 1) * ty.spec_size() > usize::MAX {
            None
        } else {
            Some((span + 1) * ty.spec_size())
        }
    } else if dims[a] == 0 || a < 0 {
        checked_span(dims, eff, a + 1, lo, hi, ty)
    } else if dims[a] > isize::MAX {
        None
    } else {
        let ext = eff[a] * (dims[a] - 1);
        if ext < isize::MIN || ext > isize::MAX || lo + min0(ext) < isize::MIN || hi + max0(ext) > isize::MAX {
            None
        } else {
            checked_span(dims, eff, a + 1, lo + min0(ext), hi + max0(ext), ty)
        }
    }
}

/// The dimensionality implied by extents.
pub fn dimensionality(dims: &[usize; 4]) -> (r: ZfpDimensionality)
    ensures
        r == spec_dimensionality(*dims),
{
    if dims[1] == 0 {
        ZfpDimensionality::D1
    } else if dims[2] == 0 {
        ZfpDimensionality::D2
    } else if dims[3] == 0 {
        ZfpDimensionality::D3
    } else {
        ZfpDimensionality::D4
    }
}

fn or_one(n: usize) -> (r: usize)
    ensures
        r == at_least_one(n),
{
    if n == 0 {
        1
    } else {
        n
    }
}

/// The number of values of a field with extents `dims`.
pub fn num_elements(dims: &[usize; 4]) -> (r: usize)
    requires
        spec_num_elements(*dims) <= usize::MAX,
    ensures
        r == spec_num_elements(*dims),
{
    let a = or_one(dims[0]);
    let b = or_one(dims[1]);
    let c = or_one(dims[2]);
    let d = or_one(dims[3]);
    proof {
        assert(a * b <= a * b * c * d && a * b * c <= a * b * c * d) by (nonlinear_arith)
            requires
                a >= 1,
                b >= 1,
                c >= 1,
                d >= 1,
        ;
    }
    a * b * c * d
}

fn div_ceil4(n: usize) -> (r: usize)
    ensures
        r == blocks_along(n),
{
    n / 4 + (if n % 4 == 0 { 0 } else { 1 })
}

/// The number of blocks of a field with extents `dims`.
pub fn num_blocks(dims: &[usize; 4]) -> (r: usize)
    requires
        spec_num_blocks(*dims) <= usize::MAX,
    ensures
        r == spec_num_blocks(*dims),
{
    let bx = div_ceil4(dims[0]);
    let by = div_ceil4(dims[1]);
    let bz = div_ceil4(dims[2]);
    let bw = div_ceil4(dims[3]);
    match dimensionality(dims) {
        ZfpDimensionality::D1 => bx,
        ZfpDimensionality::D2 => bx * by,
        ZfpDimensionality::D3 => {
            proof {
                assert(bx * by <= bx * by * bz) by (nonlinear_arith)
                    requires
                        bz >= 1,
                        bx >= 0,
                        by >= 0,
                ;
            }
            bx * by * bz
        },
        ZfpDimensionality::D4 => {
            proof {
                assert(bx * by <= bx * by * bz && bx * by * bz <= bx * by * bz * bw) by (nonlinear_arith)
                    requires
                        bz >= 1,
                        bw >= 1,
                        bx >= 0,
                        by >= 0,
                ;
            }
            bx * by * bz * bw
        },
    }
}

/// The strides in effect for extents `dims` and strides `strides`.
pub fn effective_strides(dims: &[usize; 4], strides: &[isize; 4]) -> (r: [isize; 4])
    requires
        strides_fit(*dims, *strides),
    ensures
        r == spec_effective_strides(*dims, *strides),
{
    let sx = if strides[0] != 0 { strides[0] } else { 1 };
    let sy = if strides[1] != 0 { strides[1] } else { dims[0] as isize };
    let sz = if strides[2] != 0 { strides[2] } else { (dims[0] * dims[1]) as isize };
    let sw = if strides[3] != 0 { strides[3] } else { (dims[0] * dims[1] * dims[2]) as isize };
    [sx, sy, sz, sw]
}

fn extent_of(dim: usize, stride: isize) -> (r: isize)
    requires
        dim <= isize::MAX,
        dim == 0 || isize::MIN <= stride * (dim - 1) <= isize::MAX,
    ensures
        r == (if dim == 0 { 0 } else { stride * (dim - 1) }),
{
    if dim == 0 {
        0
    } else {
        stride * (dim as isize - 1)
    }
}

/// The least and greatest value offsets of the active axes of a field.
pub fn field_index_span(dims: &[usize; 4], strides: &[isize; 4]) -> (r: (isize, isize))
    requires
        span_fits(*dims, *strides),
    ensures
        r.0 == spec_index_span(*dims, *strides).0,
        r.1 == spec_index_span(*dims, *strides).1,
        r.0 <= 0 <= r.1,
{
    let eff = effective_strides(dims, strides);
    let d = dimensionality(dims).as_usize();
    proof {
        assert(isize::MIN <= axis_extent(*dims, *strides, 0) <= isize::MAX);
        assert(isize::MIN <= axis_extent(*dims, *strides, 1) <= isize::MAX);
        assert(isize::MIN <= axis_extent(*dims, *strides, 2) <= isize::MAX);
        assert(isize::MIN <= axis_extent(*dims, *strides, 3) <= isize::MAX);
    }
    let e0 = extent_of(dims[0], eff[0]);
    let e1 = if d >= 2 { extent_of(dims[1], eff[1]) } else { 0 };
    let e2 = if d >= 3 { extent_of(dims[2], eff[2]) } else { 0 };
    let e3 = if d >= 4 { extent_of(dims[3], eff[3]) } else { 0 };
    let lo0 = if e0 < 0 { e0 } else { 0 };
    let lo1 = if e1 < 0 { e1 } else { 0 };
    let lo2 = if e2 < 0 { e2 } else { 0 };
    let lo3 = if e3 < 0 { e3 } else { 0 };
    let hi0 = if e0 > 0 { e0 } else { 0 };
    let hi1 = if e1 > 0 { e1 } else { 0 };
    let hi2 = if e2 > 0 { e2 } else { 0 };
    let hi3 = if e3 > 0 { e3 } else { 0 };
    (lo0 + lo1 + lo2 + lo3, hi0 + hi1 + hi2 + hi3)
}

/// The bytes a field spans, gaps between strided values included.
pub fn size_bytes(dims: &[usize; 4], strides: &[isize; 4], ty: ZfpScalarType) -> (r: usize)
    requires
        span_fits(*dims, *strides),
        (spec_index_span(*dims, *strides).1 - spec_index_span(*dims, *strides).0 + 1) * ty.spec_size() <= usize::MAX,
    ensures
        r == (spec_index_span(*dims, *strides).1 - spec_index_span(*dims, *strides).0 + 1) * ty.spec_size(),
{
    let (imin, imax) = field_index_span(dims, strides);
    ((imax - imin + 1) as usize) * ty.size()
}

fn checked_extent(stride: isize, dim: usize) -> (r: Option<isize>)
    requires
        dim >= 1,
    ensures
        match r {
            Some(e) => dim <= isize::MAX && e == stride * (dim - 1),
            None => dim > isize::MAX || stride * (dim - 1) < isize::MIN || stride * (dim - 1) > isize::MAX,
        },
{
    if dim > isize::MAX as usize {
        return None;
    }
    stride.checked_mul(dim as isize - 1)
}

/// The bytes a field spans, or `None` when a count along the way does not fit
/// its integer type.
pub fn checked_size_bytes(dims: &[usize; 4], strides: &[isize; 4], ty: ZfpScalarType) -> (r: Option<usize>)
    ensures
        match r {
            Some(v) => spec_checked_size_bytes(*dims, *strides, ty) == Some(v as int),
            None => spec_checked_size_bytes(*dims, *strides, ty) is None,
        },
{
    let sx: isize = if strides[0] != 0 { strides[0] } else { 1 };
    let sy: isize = if strides[1] != 0 {
        strides[1]
    } else {
        if dims[0] > isize::MAX as usize {
            return None;
        }
        dims[0] as isize
    };
    let sz: isize = if strides[2] != 0 {
        strides[2]
    } else {
        match dims[0].checked_mul(dims[1]) {
            None => return None,
            Some(n) => {
                if n > isize::MAX as usize {
                    return None;
                }
                n as isize
            },
        }
    };
    let sw: isize = if strides[3] != 0 {
        strides[3]
    } else {
        match dims[0].checked_mul(dims[1]) {
            None => return None,
            Some(n) => match n.checked_mul(dims[2]) {
                None => return None,
                Some(m) => {
                    if m > isize::MAX as usize {
                        return None;
                    }
                    m as isize
                },
            },
        }
    };
    let eff = [sx, sy, sz, sw];
    let ghost effi: [int; 4] = [sx as int, sy as int, sz as int, sw as int];
    proof {
        assert(effi == [
            if strides[0] != 0 { strides[0] as int } else { 1 },
            if strides[1] != 0 { strides[1] as int } else { dims[0] as int },
            if strides[2] != 0 { strides[2] as int } else { dims[0] * dims[1] },
            if strides[3] != 0 { strides[3] as int } else { dims[0] * dims[1] * dims[2] },
        ]);
        assert(spec_checked_size_bytes(*dims, *strides, ty) == checked_span(*dims, effi, 0, 0, 0, ty));
    }
    let mut imin: isize = 0;
    let mut imax: isize = 0;
    let mut a: usize = 0;
    while a < 4
        invariant
            a <= 4,
            imin <= 0 <= imax,
            forall|k: int| 0 <= k < 4 ==> #[trigger] eff[k] as int == effi[k],
            checked_span(*dims, effi, a as int, imin as int, imax as int, ty) == checked_span(*dims, effi, 0, 0, 0, ty),
            spec_checked_size_bytes(*dims, *strides, ty) == checked_span(*dims, effi, 0, 0, 0, ty),
        decreases 4 - a,
    {
        if dims[a] != 0 {
            match checked_extent(eff[a], dims[a]) {
                None => {
                    proof {
                        assert(eff[a as int] as int == effi[a as int]);
                        assert(checked_span(*dims, effi, a as int, imin as int, imax as int, ty) is None);
                    }
                    return None;
                },
                Some(e) => {
                    let lo = if e < 0 { e } else { 0 };
                    let hi = if e > 0 { e } else { 0 };
                    proof {
                        assert(eff[a as int] as int == effi[a as int]);
                    }
                    match imin.checked_add(lo) {
                        None => {
                            proof {
                                assert(checked_span(*dims, effi, a as int, imin as int, imax as int, ty) is None);
                            }
                            return None;
                        },
                        Some(v) => {
                            imin = v;
                        },
                    }
                    match imax.checked_add(hi) {
                        None => {
                            proof {
                                assert(checked_span(*dims, effi, a as int, (imin - lo) as int, imax as int, ty) is None);
                            }
                            return None;
                        },
                        Some(v) => {
                            imax = v;
                        },
                    }
                },
            }
        }
        a = a + 1;
    }
    let span = match imax.checked_sub(imin) {
        None => return None,
        Some(s) => s,
    };
    let span1 = match span.checked_add(1) {
        None => return None,
        Some(s) => s,
    };
    (span1 as usize).checked_mul(ty.size())
}

/// The 52-bit metadata word of a field: the extents less one of the active
/// axes (48 bits in all, split evenly), the dimensionality less one and the
/// scalar type, from the top down; an error for no extents or an extent
/// too large for its share of the bits (a zero first extent before a
/// nonzero one counts as too large, its extent less one wrapping around).
pub open spec fn spec_field_metadata(ty: ZfpScalarType, dims: [usize; 4]) -> Result<u64, ZfpMetadataError> {
    if dims[0] == 0 && dims[1] == 0 && dims[2] == 0 && dims[3] == 0 {
        Err(ZfpMetadataError::Null)
    } else if dims[0] == 0 {
        Err(ZfpMetadataError::DimensionTooLarge)
    } else {
        let d = spec_dimensionality(dims).count();
        let n0 = (dims[0] - 1) as u64;
        let n1 = (dims[1] - 1) as u64;
        let n2 = (dims[2] - 1) as u64;
        let n3 = (dims[3] - 1) as u64;
        let payload: Option<u64> = if d == 1 {
            if dims[0] - 1 >= 0x1_0000_0000_0000 { None } else { Some(n0) }
        } else if d == 2 {
            if dims[0] - 1 >= 0x100_0000 || dims[1] - 1 >= 0x100_0000 { None } else { Some((n1 << 24u64) | n0) }
        } else if d == 3 {
            if dims[0] - 1 >= 0x1_0000 || dims[1] - 1 >= 0x1_0000 || dims[2] - 1 >= 0x1_0000 {
                None
            } else {
                Some((n2 << 32u64) | (n1 << 16u64) | n0)
            }
        } else {
            if dims[0] - 1 >= 0x1000 || dims[1] - 1 >= 0x1000 || dims[2] - 1 >= 0x1000 || dims[3] - 1 >= 0x1000 {
                None
            } else {
                Some((n3 << 36u64) | (n2 << 24u64) | (n1 << 12u64) | n0)
            }
        };
        match payload {
            None => Err(ZfpMetadataError::DimensionTooLarge),
            Some(p) => Ok((((p << 2u64) | (d - 1) as u64) << 2u64) | ty.spec_code()),
        }
    }
}

/// The scalar type of a type code.
pub open spec fn type_of_code(c: u64) -> ZfpScalarType {
    if c == 0 {
        ZfpScalarType::Int32
    } else if c == 1 {
        ZfpScalarType::Int64
    } else if c == 2 {
        ZfpScalarType::Float
    } else {
        ZfpScalarType::Double
    }
}

/// The scalar type and extents a metadata word stands for; `None` for a word
/// with bits above the 52 metadata bits.
pub open spec fn spec_decode_metadata(meta: u64) -> Option<(ZfpScalarType, [usize; 4])> {
    if meta >> 52u64 != 0 {
        None
    } else {
        let m = meta >> 2u64;
        let d = (m & 3u64) + 1;
        let m = m >> 2u64;
        let dims: [usize; 4] = if d == 1 {
            [((m & 0xffff_ffff_ffff) + 1) as usize, 0, 0, 0]
        } else if d == 2 {
            [((m & 0xff_ffff) + 1) as usize, (((m >> 24u64) & 0xff_ffff) + 1) as usize, 0, 0]
        } else if d == 3 {
            [
                ((m & 0xffff) + 1) as usize,
                (((m >> 16u64) & 0xffff) + 1) as usize,
                (((m >> 32u64) & 0xffff) + 1) as usize,
                0,
            ]
        } else {
            [
                ((m & 0xfff) + 1) as usize,
                (((m >> 12u64) & 0xfff) + 1) as usize,
                (((m >> 24u64) & 0xfff) + 1) as usize,
                (((m >> 36u64) & 0xfff) + 1) as usize,
            ]
        };
        Some((type_of_code(meta & 3u64), dims))
    }
}

proof fn field_bounds(m0: u64)
    by (bit_vector)
    ensures
        (m0 & 3u64) <= 3,
        ((m0 >> 2u64) & 0xffff_ffff_ffff) < 0xffff_ffff_ffff_ffff,
        ((m0 >> 2u64) & 0xff_ffff) < 0xffff_ffff_ffff_ffff,
        (((m0 >> 2u64) >> 24u64) & 0xff_ffff) < 0xffff_ffff_ffff_ffff,
        ((m0 >> 2u64) & 0xffff) < 0xffff_ffff_ffff_ffff,
        (((m0 >> 2u64) >> 16u64) & 0xffff) < 0xffff_ffff_ffff_ffff,
        (((m0 >> 2u64) >> 32u64) & 0xffff) < 0xffff_ffff_ffff_ffff,
        ((m0 >> 2u64) & 0xfff) < 0xffff_ffff_ffff_ffff,
        (((m0 >> 2u64) >> 12u64) & 0xfff) < 0xffff_ffff_ffff_ffff,
        (((m0 >> 2u64) >> 24u64) & 0xfff) < 0xffff_ffff_ffff_ffff,
        (((m0 >> 2u64) >> 36u64) & 0xfff) < 0xffff_ffff_ffff_ffff,
{
}

/// The metadata word of a field with scalar type `ty` and extents `dims`.
pub fn field_metadata(ty: ZfpScalarType, dims: &[usize; 4]) -> (r: Result<u64, ZfpMetadataError>)
    ensures
        r == spec_field_metadata(ty, *dims),
{
    let code: u64 = match ty {
        ZfpScalarType::Int32 => 0,
        ZfpScalarType::Int64 => 1,
        ZfpScalarType::Float => 2,
        ZfpScalarType::Double => 3,
    };
    if dims[0] == 0 && dims[1] == 0 && dims[2] == 0 && dims[3] == 0 {
        return Err(ZfpMetadataError::Null);
    }
    if dims[0] == 0 {
        return Err(ZfpMetadataError::DimensionTooLarge);
    }
    let d = dimensionality(dims);
    let payload: u64 = match d {
        ZfpDimensionality::D1 => {
            if (dims[0] - 1) as u64 >= 0x1_0000_0000_0000 {
                return Err(ZfpMetadataError::DimensionTooLarge);
            }
            (dims[0] - 1) as u64
        },
        ZfpDimensionality::D2 => {
            if (dims[0] - 1) as u64 >= 0x100_0000 || (dims[1] - 1) as u64 >= 0x100_0000 {
                return Err(ZfpMetadataError::DimensionTooLarge);
            }
            (((dims[1] - 1) as u64) << 24u64) | (dims[0] - 1) as u64
        },
        ZfpDimensionality::D3 => {
            if (dims[0] - 1) as u64 >= 0x1_0000 || (dims[1] - 1) as u64 >= 0x1_0000 || (dims[2] - 1) as u64
                >= 0x1_0000 {
                return Err(ZfpMetadataError::DimensionTooLarge);
            }
            (((dims[2] - 1) as u64) << 32u64) | (((dims[1] - 1) as u64) << 16u64) | (dims[0] - 1) as u64
        },
        ZfpDimensionality::D4 => {
            if (dims[0] - 1) as u64 >= 0x1000 || (dims[1] - 1) as u64 >= 0x1000 || (dims[2] - 1) as u64 >= 0x1000
                || (dims[3] - 1) as u64 >= 0x1000 {
                return Err(ZfpMetadataError::DimensionTooLarge);
            }
            (((dims[3] - 1) as u64) << 36u64) | (((dims[2] - 1) as u64) << 24u64) | (((dims[1] - 1) as u64)
                << 12u64) | (dims[0] - 1) as u64
        },
    };
    let dcode: u64 = d.as_u32() as u64 - 1;
    Ok((((payload << 2u64) | dcode) << 2u64) | code)
}

/// The scalar type and extents of a metadata word; `None` for a word with
/// bits above the 52 metadata bits.
pub fn decode_metadata(meta: u64) -> (r: Option<(ZfpScalarType, [usize; 4])>)
    ensures
        r == spec_decode_metadata(meta),
{
    if meta >> 52u64 != 0 {
        return None;
    }
    let m0 = meta >> 2u64;
    proof {
        field_bounds(m0);
    }
    let d = (m0 & 3u64) + 1;
    let m = m0 >> 2u64;
    let dims: [usize; 4] = if d == 1 {
        [((m & 0xffff_ffff_ffff) + 1) as usize, 0, 0, 0]
    } else if d == 2 {
        [((m & 0xff_ffff) + 1) as usize, (((m >> 24u64) & 0xff_ffff) + 1) as usize, 0, 0]
    } else if d == 3 {
        [
            ((m & 0xffff) + 1) as usize,
            (((m >> 16u64) & 0xffff) + 1) as usize,
            (((m >> 32u64) & 0xffff) + 1) as usize,
            0,
        ]
    } else {
        [
            ((m & 0xfff) + 1) as usize,
            (((m >> 12u64) & 0xfff) + 1) as usize,
            (((m >> 24u64) & 0xfff) + 1) as usize,
            (((m >> 36u64) & 0xfff) + 1) as usize,
        ]
    };
    let c = meta & 3u64;
    let ty = if c == 0 {
        ZfpScalarType::Int32
    } else if c == 1 {
        ZfpScalarType::Int64
    } else if c == 2 {
        ZfpScalarType::Float
    } else {
        ZfpScalarType::Double
    };
    Some((ty, dims))
}

proof fn word_fields(meta: u64)
    by (bit_vector)
    requires
        meta >> 52u64 == 0,
    ensures
        ({
            let m = (meta >> 2u64) >> 2u64;
            &&& m == m & 0xffff_ffff_ffff
            &&& m == (((m >> 24u64) & 0xff_ffff) << 24u64) | (m & 0xff_ffff)
            &&& m == (((m >> 32u64) & 0xffff) << 32u64) | (((m >> 16u64) & 0xffff) << 16u64) | (m & 0xffff)
            &&& m == (((m >> 36u64) & 0xfff) << 36u64) | (((m >> 24u64) & 0xfff) << 24u64) | (((m >> 12u64) & 0xfff)
                << 12u64) | (m & 0xfff)
            &&& meta == (((m << 2u64) | ((meta >> 2u64) & 3u64)) << 2u64) | (meta & 3u64)
            &&& (meta & 3u64) <= 3
            &&& ((meta >> 2u64) & 3u64) <= 3
            &&& (m & 0xffff_ffff_ffff) < 0x1_0000_0000_0000
            &&& (m & 0xff_ffff) < 0x100_0000
            &&& ((m >> 24u64) & 0xff_ffff) < 0x100_0000
            &&& (m & 0xffff) < 0x1_0000
            &&& ((m >> 16u64) & 0xffff) < 0x1_0000
            &&& ((m >> 32u64) & 0xffff) < 0x1_0000
            &&& (m & 0xfff) < 0x1000
            &&& ((m >> 12u64) & 0xfff) < 0x1000
            &&& ((m >> 24u64) & 0xfff) < 0x1000
            &&& ((m >> 36u64) & 0xfff) < 0x1000
        }),
{
}

proof fn word_of_fields(x0: u64, x1: u64, x2: u64, x3: u64, dc: u64, c: u64)
    by (bit_vector)
    requires
        dc <= 3,
        c <= 3,
        dc == 0 ==> x0 < 0x1_0000_0000_0000,
        dc == 1 ==> x0 < 0x100_0000 && x1 < 0x100_0000,
        dc == 2 ==> x0 < 0x1_0000 && x1 < 0x1_0000 && x2 < 0x1_0000,
        dc == 3 ==> x0 < 0x1000 && x1 < 0x1000 && x2 < 0x1000 && x3 < 0x1000,
    ensures
        ({
            let p = if dc == 0 {
                x0
            } else if dc == 1 {
                (x1 << 24u64) | x0
            } else if dc == 2 {
                (x2 << 32u64) | (x1 << 16u64) | x0
            } else {
                (x3 << 36u64) | (x2 << 24u64) | (x1 << 12u64) | x0
            };
            let w = (((p << 2u64) | dc) << 2u64) | c;
            let m = (w >> 2u64) >> 2u64;
            &&& w >> 52u64 == 0
            &&& (w >> 2u64) & 3u64 == dc
            &&& w & 3u64 == c
            &&& dc == 0 ==> m & 0xffff_ffff_ffff == x0
            &&& dc == 1 ==> m & 0xff_ffff == x0 && (m >> 24u64) & 0xff_ffff == x1
            &&& dc == 2 ==> m & 0xffff == x0 && (m >> 16u64) & 0xffff == x1 && (m >> 32u64) & 0xffff == x2
            &&& dc == 3 ==> m & 0xfff == x0 && (m >> 12u64) & 0xfff == x1 && (m >> 24u64) & 0xfff == x2 && (m
                >> 36u64) & 0xfff == x3
        }),
{
}

/// Every 52-bit word is the metadata of the type and extents it decodes to.
/// (Extents are `usize`; this is stated for 64-bit `usize`.)
pub proof fn lemma_metadata_word_roundtrip(meta: u64)
    requires
        meta >> 52u64 == 0,
        usize::MAX == u64::MAX,
    ensures
        ({
            let md = spec_decode_metadata(meta);
            let q = md.unwrap();
            &&& md is Some
            &&& spec_field_metadata(q.0, q.1) == Ok::<u64, ZfpMetadataError>(meta)
        }),
{
    word_fields(meta);
    let c = meta & 3u64;
    assert(type_of_code(c).spec_code() == c);
    let m0 = meta >> 2u64;
    let dc = m0 & 3u64;
    let m = m0 >> 2u64;
    let dims = spec_decode_metadata(meta).unwrap().1;
    let ty = type_of_code(c);
    let w = (((m << 2u64) | dc) << 2u64) | c;
    assert(w == meta);
    if dc == 0 {
        assert(dims[0] - 1 == m & 0xffff_ffff_ffff);
        assert(spec_dimensionality(dims).count() == 1);
        assert(((dims[0] - 1) as u64) == m);
        assert(spec_field_metadata(ty, dims) == Ok::<u64, ZfpMetadataError>(w));
    } else if dc == 1 {
        assert(dims[0] - 1 == m & 0xff_ffff);
        assert(dims[1] - 1 == (m >> 24u64) & 0xff_ffff);
        assert(spec_dimensionality(dims).count() == 2);
        assert((((dims[1] - 1) as u64) << 24u64) | ((dims[0] - 1) as u64) == m);
        assert(spec_field_metadata(ty, dims) == Ok::<u64, ZfpMetadataError>(w));
    } else if dc == 2 {
        assert(dims[0] - 1 == m & 0xffff);
        assert(dims[1] - 1 == (m >> 16u64) & 0xffff);
        assert(dims[2] - 1 == (m >> 32u64) & 0xffff);
        assert(spec_dimensionality(dims).count() == 3);
        assert((((dims[2] - 1) as u64) << 32u64) | (((dims[1] - 1) as u64) << 16u64) | ((dims[0] - 1) as u64) == m);
        assert(spec_field_metadata(ty, dims) == Ok::<u64, ZfpMetadataError>(w));
    } else {
        assert(dims[0] - 1 == m & 0xfff);
        assert(dims[1] - 1 == (m >> 12u64) & 0xfff);
        assert(dims[2] - 1 == (m >> 24u64) & 0xfff);
        assert(dims[3] - 1 == (m >> 36u64) & 0xfff);
        assert(spec_dimensionality(dims).count() == 4);
        assert((((dims[3] - 1) as u64) << 36u64) | (((dims[2] - 1) as u64) << 24u64) | (((dims[1] - 1) as u64)
            << 12u64) | ((dims[0] - 1) as u64) == m);
        assert(spec_field_metadata(ty, dims) == Ok::<u64, ZfpMetadataError>(w));
    }
}

/// The metadata word of a type and extents decodes to that type and those
/// extents, when no extent follows a zero one.
pub proof fn lemma_metadata_roundtrip(ty: ZfpScalarType, dims: [usize; 4])
    requires
        forall|a: int| spec_dimensionality(dims).count() <= a < 4 ==> dims[a] == 0,
    ensures
        spec_field_metadata(ty, dims) matches Ok(w) ==> spec_decode_metadata(w) == Some((ty, dims)),
{
    if spec_field_metadata(ty, dims) is Ok {
        let d = spec_dimensionality(dims).count();
        let x0 = (dims[0] - 1) as u64;
        let x1 = (dims[1] - 1) as u64;
        let x2 = (dims[2] - 1) as u64;
        let x3 = (dims[3] - 1) as u64;
        let dc = (d - 1) as u64;
        let c = ty.spec_code();
        word_of_fields(x0, x1, x2, x3, dc, c);
        assert(type_of_code(c) == ty);
        let w = spec_field_metadata(ty, dims)->Ok_0;
        let r = spec_decode_metadata(w).unwrap().1;
        if d == 1 {
            assert(r[0] == dims[0]);
            assert(r =~= dims);
        } else if d == 2 {
            assert(r[0] == dims[0] && r[1] == dims[1]);
            assert(r =~= dims);
        } else if d == 3 {
            assert(r[0] == dims[0] && r[1] == dims[1] && r[2] == dims[2]);
            assert(r =~= dims);
        } else {
            assert(r[0] == dims[0] && r[1] == dims[1] && r[2] == dims[2] && r[3] == dims[3]);
            assert(r =~= dims);
        }
    }
}

/// The offset of the far end of axis `b` for integer strides `eff`.
pub open spec fn ext_of(dims: [usize; 4], eff: [int; 4], b: int) -> int {
    if dims[b] == 0 {
        0
    } else {
        eff[b] * (dims[b] - 1)
    }
}

/// The sum of the negative far-end offsets of axes `a..4`.
pub open spec fn sum_min(dims: [usize; 4], eff: [int; 4], a: int) -> int
    decreases 4 - a,
{
    if a >= 4 || a < 0 {
        0
    } else {
        min0(ext_of(dims, eff, a)) + sum_min(dims, eff, a + 1)
    }
}

/// The sum of the positive far-end offsets of axes `a..4`.
pub open spec fn sum_max(dims: [usize; 4], eff: [int; 4], a: int) -> int
    decreases 4 - a,
{
    if a >= 4 || a < 0 {
        0
    } else {
        max0(ext_of(dims, eff, a)) + sum_max(dims, eff, a + 1)
    }
}

/// Axis `b` has an extent and a far-end offset that fit an `isize`.
pub open spec fn axis_ok(dims: [usize; 4], eff: [int; 4], b: int) -> bool {
    dims[b] <= isize::MAX && isize::MIN <= ext_of(dims, eff, b) <= isize::MAX
}

proof fn checked_span_bounds(dims: [usize; 4], eff: [int; 4], a: int, lo: int, hi: int, ty: ZfpScalarType)
    requires
        0 <= a <= 4,
        isize::MIN <= lo <= 0 <= hi <= isize::MAX,
        checked_span(dims, eff, a, lo, hi, ty) is Some,
    ensures
        forall|b: int| a <= b < 4 ==> #[trigger] axis_ok(dims, eff, b),
        lo + sum_min(dims, eff, a) >= isize::MIN,
        (hi + sum_max(dims, eff, a)) - (lo + sum_min(dims, eff, a)) + 1 <= isize::MAX,
    decreases 4 - a,
{
    if a < 4 {
        if dims[a] == 0 {
            checked_span_bounds(dims, eff, a + 1, lo, hi, ty);
            assert(ext_of(dims, eff, a) == 0);
            assert(axis_ok(dims, eff, a));
        } else {
            assert(dims[a] <= isize::MAX);
            let x = eff[a] * (dims[a] - 1);
            assert(isize::MIN <= x <= isize::MAX);
            assert(lo + min0(x) >= isize::MIN && hi + max0(x) <= isize::MAX);
            checked_span_bounds(dims, eff, a + 1, lo + min0(x), hi + max0(x), ty);
            assert(ext_of(dims, eff, a) == x);
            assert(axis_ok(dims, eff, a));
        }
        assert(sum_min(dims, eff, a) == min0(ext_of(dims, eff, a)) + sum_min(dims, eff, a + 1));
        assert(sum_max(dims, eff, a) == max0(ext_of(dims, eff, a)) + sum_max(dims, eff, a + 1));
    } else {
        assert(hi - lo <= isize::MAX);
    }
}

proof fn checked_span_value(dims: [usize; 4], eff: [int; 4], a: int, lo: int, hi: int, ty: ZfpScalarType)
    requires
        0 <= a <= 4,
        checked_span(dims, eff, a, lo, hi, ty) is Some,
    ensures
        checked_span(dims, eff, a, lo, hi, ty) == Some(((hi + sum_max(dims, eff, a)) - (lo + sum_min(dims, eff, a)) + 1)
            * ty.spec_size()),
    decreases 4 - a,
{
    if a < 4 {
        if dims[a] == 0 {
            checked_span_value(dims, eff, a + 1, lo, hi, ty);
            assert(ext_of(dims, eff, a) == 0);
        } else {
            let x = eff[a] * (dims[a] - 1);
            checked_span_value(dims, eff, a + 1, lo + min0(x), hi + max0(x), ty);
            assert(ext_of(dims, eff, a) == x);
        }
        assert(sum_min(dims, eff, a) == min0(ext_of(dims, eff, a)) + sum_min(dims, eff, a + 1));
        assert(sum_max(dims, eff, a) == max0(ext_of(dims, eff, a)) + sum_max(dims, eff, a + 1));
    }
}

/// The checked byte count of a field covers every value that its active axes
/// reach: the index span over its effective strides, times the value size.
pub proof fn lemma_checked_size_covers_span(dims: [usize; 4], strides: [isize; 4], ty: ZfpScalarType)
    requires
        spec_checked_size_bytes(dims, strides, ty) is Some,
    ensures
        ({
            let e = spec_effective_strides(dims, strides);
            let s = spec_index_span(dims, e);
            spec_checked_size_bytes(dims, strides, ty) matches Some(v) && (s.1 - s.0 + 1) * ty.spec_size() <= v
        }),
{
    lemma_checked_size_fits(dims, strides, ty);
    let e = spec_effective_strides(dims, strides);
    let n01 = dims[0] * dims[1];
    let n012 = dims[0] * dims[1] * dims[2];
    let eff: [int; 4] = [
        if strides[0] != 0 { strides[0] as int } else { 1 },
        if strides[1] != 0 { strides[1] as int } else { dims[0] as int },
        if strides[2] != 0 { strides[2] as int } else { n01 },
        if strides[3] != 0 { strides[3] as int } else { n012 },
    ];
    assert(spec_checked_size_bytes(dims, strides, ty) == checked_span(dims, eff, 0, 0, 0, ty));
    checked_span_value(dims, eff, 0, 0, 0, ty);
    assert(e[0] as int == eff[0] && e[1] as int == eff[1] && e[2] as int == eff[2] && e[3] as int == eff[3]);
    let x0 = ext_of(dims, eff, 0);
    let x1 = ext_of(dims, eff, 1);
    let x2 = ext_of(dims, eff, 2);
    let x3 = ext_of(dims, eff, 3);
    assert(x0 == axis_extent(dims, e, 0) && x1 == axis_extent(dims, e, 1) && x2 == axis_extent(dims, e, 2) && x3
        == axis_extent(dims, e, 3));
    assert(sum_min(dims, eff, 0) == min0(x0) + min0(x1) + min0(x2) + min0(x3)) by {
        reveal_with_fuel(sum_min, 5);
    }
    assert(sum_max(dims, eff, 0) == max0(x0) + max0(x1) + max0(x2) + max0(x3)) by {
        reveal_with_fuel(sum_max, 5);
    }
    let s = spec_index_span(dims, e);
    let all = sum_max(dims, eff, 0) - sum_min(dims, eff, 0);
    assert(s.1 - s.0 <= all);
    assert((s.1 - s.0 + 1) * ty.spec_size() <= (all + 1) * ty.spec_size()) by (nonlinear_arith)
        requires
            s.1 - s.0 <= all,
            ty.spec_size() >= 0,
    ;
}

/// A field whose checked byte count exists has natural strides that fit and
/// an index span whose offsets fit an `isize`, and its effective strides are
/// their own effective strides.
#[verifier::rlimit(60)]
#[verifier::spinoff_prover]
pub proof fn lemma_checked_size_fits(dims: [usize; 4], strides: [isize; 4], ty: ZfpScalarType)
    requires
        spec_checked_size_bytes(dims, strides, ty) is Some,
    ensures
        strides_fit(dims, strides),
        spec_effective_strides(dims, spec_effective_strides(dims, strides)) == spec_effective_strides(dims, strides),
        span_fits(dims, spec_effective_strides(dims, strides)),
{
    let e = spec_effective_strides(dims, strides);
    let n01 = dims[0] * dims[1];
    let n012 = dims[0] * dims[1] * dims[2];
    let eff: [int; 4] = [
        if strides[0] != 0 { strides[0] as int } else { 1 },
        if strides[1] != 0 { strides[1] as int } else { dims[0] as int },
        if strides[2] != 0 { strides[2] as int } else { n01 },
        if strides[3] != 0 { strides[3] as int } else { n012 },
    ];
    assert(spec_checked_size_bytes(dims, strides, ty) == checked_span(dims, eff, 0, 0, 0, ty));
    checked_span_bounds(dims, eff, 0, 0, 0, ty);
    assert(e[0] as int == eff[0]);
    assert(e[1] as int == eff[1]);
    assert(e[2] as int == eff[2]);
    assert(e[3] as int == eff[3]);
    let e2 = spec_effective_strides(dims, e);
    assert(e2 =~= e);
    assert forall|a: int| 0 <= a < 4 implies dims[a] <= isize::MAX && isize::MIN <= #[trigger] axis_extent(dims, e, a)
        <= isize::MAX by {
        assert(ext_of(dims, eff, a) == axis_extent(dims, e, a));
        assert(axis_ok(dims, eff, a));
    }
    let x0 = ext_of(dims, eff, 0);
    let x1 = ext_of(dims, eff, 1);
    let x2 = ext_of(dims, eff, 2);
    let x3 = ext_of(dims, eff, 3);
    assert(x0 == axis_extent(dims, e, 0) && x1 == axis_extent(dims, e, 1) && x2 == axis_extent(dims, e, 2) && x3
        == axis_extent(dims, e, 3));
    assert(sum_min(dims, eff, 0) == min0(x0) + min0(x1) + min0(x2) + min0(x3)) by {
        reveal_with_fuel(sum_min, 5);
    }
    assert(sum_max(dims, eff, 0) == max0(x0) + max0(x1) + max0(x2) + max0(x3)) by {
        reveal_with_fuel(sum_max, 5);
    }
}

/// Whether a field's layout is the natural one: all strides zero, or the
/// strides of the active axes equal to the natural strides.
pub open spec fn spec_is_contiguous(dims: [usize; 4], strides: [isize; 4]) -> bool {
    let d = spec_dimensionality(dims).count() as int;
    let e = spec_effective_strides(dims, strides);
    let n = spec_effective_strides(dims, [0isize, 0, 0, 0]);
    (strides[0] == 0 && strides[1] == 0 && strides[2] == 0 && strides[3] == 0) || (forall|a: int|
        0 <= a < d ==> #[trigger] e[a] == n[a])
}

/// Whether a field's layout is the natural one.
pub fn is_contiguous(dims: &[usize; 4], strides: &[isize; 4]) -> (r: bool)
    requires
        strides_fit(*dims, [0isize, 0, 0, 0]),
    ensures
        r == spec_is_contiguous(*dims, *strides),
{
    if strides[0] == 0 && strides[1] == 0 && strides[2] == 0 && strides[3] == 0 {
        return true;
    }
    let e = effective_strides(dims, strides);
    let n = effective_strides(dims, &[0isize, 0, 0, 0]);
    let d = dimensionality(dims).as_usize();
    let mut a: usize = 0;
    while a < d
        invariant
            d == spec_dimensionality(*dims).count(),
            a <= d,
            e == spec_effective_strides(*dims, *strides),
            n == spec_effective_strides(*dims, [0isize, 0, 0, 0]),
            forall|k: int| 0 <= k < a ==> #[trigger] e[k] == n[k],
        decreases d - a,
    {
        if e[a] != n[a] {
            return false;
        }
        a = a + 1;
    }
    true
}

/// Scalar type and extents stored in a 52-bit metadata word.
#[derive(Debug, Clone, Copy, PartialEq, Eq, Hash)]
pub struct ZfpFieldMetadata {
    /// Scalar type stored in the field.
    pub scalar_type: ZfpScalarType,
    /// Field extents `[nx, ny, nz, nw]`; unused extents are zero.
    pub dims: [usize; 4],
}

impl ZfpFieldMetadata {
    /// Decode a metadata word; `None` for a word with bits above the 52 metadata bits.
    pub fn from_bits(meta: u64) -> (r: Option<ZfpFieldMetadata>)
        ensures
            match r {
                Some(m) => spec_decode_metadata(meta) == Some((m.scalar_type, m.dims)),
                None => spec_decode_metadata(meta) is None,
            },
    {
        match decode_metadata(meta) {
            Some((scalar_type, dims)) => Some(ZfpFieldMetadata { scalar_type, dims }),
            None => None,
        }
    }

    /// Encode as a metadata word; an error for no extents or an extent too large.
    pub fn to_bits(self) -> (r: Result<u64, ZfpMetadataError>)
        ensures
            r == spec_field_metadata(self.scalar_type, self.dims),
    {
        field_metadata(self.scalar_type, &self.dims)
    }
}

/// A read-only view of uncompressed values: a byte buffer, their scalar
/// type, extents and strides.
pub struct ZfpField<'a> {
    data: &'a [u8],
    scalar_type: ZfpScalarType,
    dims: [usize; 4],
    strides: [isize; 4],
}

impl<'a> ZfpField<'a> {
    /// The bytes of the field.
    pub closed spec fn spec_data(&self) -> Seq<u8> {
        self.data@
    }

    /// The scalar type of the field.
    pub closed spec fn spec_scalar_type(&self) -> ZfpScalarType {
        self.scalar_type
    }

    /// The extents of the field.
    pub closed spec fn spec_dims(&self) -> [usize; 4] {
        self.dims
    }

    /// The strides of the field.
    pub closed spec fn spec_strides(&self) -> [isize; 4] {
        self.strides
    }

    /// A field of natural layout over `data` with extents `dims`.
    pub fn new<D: ZfpDims>(data: &'a [u8], scalar_type: ZfpScalarType, dims: D) -> (r: Self)
        ensures
            r.spec_data() == data@,
            r.spec_scalar_type() == scalar_type,
            r.spec_dims() == dims.spec_to_array(),
            r.spec_strides() == [0isize, 0, 0, 0],
    {
        ZfpField { data, scalar_type, dims: dims.to_array(), strides: [0, 0, 0, 0] }
    }

    /// A strided field over `data` with extents `dims` and strides `strides`.
    pub fn new_strided<D: ZfpDims, S: ZfpStrides>(data: &'a [u8], scalar_type: ZfpScalarType, dims: D, strides: S) -> (r: Self)
        ensures
            r.spec_data() == data@,
            r.spec_scalar_type() == scalar_type,
            r.spec_dims() == dims.spec_to_array(),
            r.spec_strides() == strides.spec_to_array(),
    {
        ZfpField { data, scalar_type, dims: dims.to_array(), strides: strides.to_array() }
    }

    /// The scalar type.
    pub fn scalar_type(&self) -> (r: ZfpScalarType)
        ensures
            r == self.spec_scalar_type(),
    {
        self.scalar_type
    }

    /// The metadata word of the field's type and extents.
    pub fn metadata(&self) -> (r: Result<u64, ZfpMetadataError>)
        ensures
            r == spec_field_metadata(self.spec_scalar_type(), self.spec_dims()),
    {
        field_metadata(self.scalar_type, &self.dims)
    }

    /// Take type and extents from a metadata word, with natural strides;
    /// `false`, and the field unchanged, for an invalid word.
    pub fn set_metadata(&mut self, meta: u64) -> (r: bool)
        ensures
            r == (spec_decode_metadata(meta) is Some),
            final(self).spec_data() == old(self).spec_data(),
            r ==> (final(self).spec_scalar_type(), final(self).spec_dims()) == spec_decode_metadata(meta).unwrap()
                && final(self).spec_strides() == [0isize, 0, 0, 0],
            !r ==> final(self).spec_scalar_type() == old(self).spec_scalar_type() && final(self).spec_dims()
                == old(self).spec_dims() && final(self).spec_strides() == old(self).spec_strides(),
    {
        match ZfpFieldMetadata::from_bits(meta) {
            Some(m) => {
                self.scalar_type = m.scalar_type;
                self.dims = m.dims;
                self.strides = [0, 0, 0, 0];
                true
            },
            None => false,
        }
    }

    /// The dimensionality of the field.
    pub fn dimensionality(&self) -> (r: ZfpDimensionality)
        ensures
            r == spec_dimensionality(self.spec_dims()),
    {
        dimensionality(&self.dims)
    }

    /// The extents `[nx, ny, nz, nw]`.
    pub fn dims(&self) -> (r: [usize; 4])
        ensures
            r == self.spec_dims(),
    {
        self.dims
    }

    /// The strides as given (zero for the natural stride).
    pub fn strides(&self) -> (r: [isize; 4])
        ensures
            r == self.spec_strides(),
    {
        self.strides
    }

    /// The number of values.
    pub fn num_elements(&self) -> (r: usize)
        requires
            spec_num_elements(self.spec_dims()) <= usize::MAX,
        ensures
            r == spec_num_elements(self.spec_dims()),
    {
        num_elements(&self.dims)
    }

    /// The number of blocks of `4^d` values.
    pub fn num_blocks(&self) -> (r: usize)
        requires
            spec_num_blocks(self.spec_dims()) <= usize::MAX,
        ensures
            r == spec_num_blocks(self.spec_dims()),
    {
        num_blocks(&self.dims)
    }

    /// Whether the layout is the natural one.
    pub fn is_contiguous(&self) -> (r: bool)
        requires
            strides_fit(self.spec_dims(), [0isize, 0, 0, 0]),
        ensures
            r == spec_is_contiguous(self.spec_dims(), self.spec_strides()),
    {
        is_contiguous(&self.dims, &self.strides)
    }

    /// The strides in effect, zero strides replaced by the natural ones.
    pub fn effective_strides(&self) -> (r: [isize; 4])
        requires
            strides_fit(self.spec_dims(), self.spec_strides()),
        ensures
            r == spec_effective_strides(self.spec_dims(), self.spec_strides()),
    {
        effective_strides(&self.dims, &self.strides)
    }

    /// The bytes of the field.
    pub fn data(&self) -> (r: &[u8])
        ensures
            r@ == self.spec_data(),
    {
        self.data
    }

    /// Bits per value: 32 or 64.
    pub fn precision(&self) -> (r: u32)
        ensures
            r == self.spec_scalar_type().spec_precision(),
    {
        self.scalar_type.precision()
    }

    /// The least and greatest value offsets of the active axes.
    pub fn field_index_span(&self) -> (r: (isize, isize))
        requires
            span_fits(self.spec_dims(), self.spec_strides()),
        ensures
            r.0 == spec_index_span(self.spec_dims(), self.spec_strides()).0,
            r.1 == spec_index_span(self.spec_dims(), self.spec_strides()).1,
    {
        field_index_span(&self.dims, &self.strides)
    }

    /// The bytes the field spans, gaps between strided values included.
    pub fn size_bytes(&self) -> (r: usize)
        requires
            span_fits(self.spec_dims(), self.spec_strides()),
            (spec_index_span(self.spec_dims(), self.spec_strides()).1 - spec_index_span(self.spec_dims(),
                self.spec_strides()).0 + 1) * self.spec_scalar_type().spec_size() <= usize::MAX,
        ensures
            r == (spec_index_span(self.spec_dims(), self.spec_strides()).1 - spec_index_span(self.spec_dims(),
                self.spec_strides()).0 + 1) * self.spec_scalar_type().spec_size(),
    {
        size_bytes(&self.dims, &self.strides, self.scalar_type)
    }

    /// The bytes the field spans, or `None` when a count along the way overflows.
    pub fn checked_size_bytes(&self) -> (r: Option<usize>)
        ensures
            match r {
                Some(v) => spec_checked_size_bytes(self.spec_dims(), self.spec_strides(), self.spec_scalar_type()) == Some(v as int),
                None => spec_checked_size_bytes(self.spec_dims(), self.spec_strides(), self.spec_scalar_type()) is None,
            },
    {
        checked_size_bytes(&self.dims, &self.strides, self.scalar_type)
    }

    /// Set the strides.
    pub fn set_stride<S: ZfpStrides>(&mut self, strides: S)
        ensures
            final(self).spec_strides() == strides.spec_to_array(),
            final(self).spec_data() == old(self).spec_data(),
            final(self).spec_scalar_type() == old(self).spec_scalar_type(),
            final(self).spec_dims() == old(self).spec_dims(),
    {
        self.strides = strides.to_array();
    }

    /// The least and greatest value offsets of the active axes of extents
    /// `dims` with strides `strides`.
    pub fn field_index_span_static(dims: &[usize; 4], strides: &[isize; 4]) -> (r: (isize, isize))
        requires
            span_fits(*dims, *strides),
        ensures
            r.0 == spec_index_span(*dims, *strides).0,
            r.1 == spec_index_span(*dims, *strides).1,
    {
        field_index_span(dims, strides)
    }
}

/// A writable view of uncompressed values: a byte buffer, their scalar
/// type, extents and strides.
pub struct ZfpFieldMut<'a> {
    data: &'a mut [u8],
    scalar_type: ZfpScalarType,
    dims: [usize; 4],
    strides: [isize; 4],
}

impl<'a> ZfpFieldMut<'a> {
    /// The bytes of the field.
    pub closed spec fn spec_data(&self) -> Seq<u8> {
        self.data@
    }

    /// The scalar type of the field.
    pub closed spec fn spec_scalar_type(&self) -> ZfpScalarType {
        self.scalar_type
    }

    /// The extents of the field.
    pub closed spec fn spec_dims(&self) -> [usize; 4] {
        self.dims
    }

    /// The strides of the field.
    pub closed spec fn spec_strides(&self) -> [isize; 4] {
        self.strides
    }

    /// A field of natural layout over `data` with extents `dims`.
    pub fn new<D: ZfpDims>(data: &'a mut [u8], scalar_type: ZfpScalarType, dims: D) -> (r: Self)
        ensures
            r.spec_data() == old(data)@,
            r.spec_scalar_type() == scalar_type,
            r.spec_dims() == dims.spec_to_array(),
            r.spec_strides() == [0isize, 0, 0, 0],
    {
        ZfpFieldMut { data, scalar_type, dims: dims.to_array(), strides: [0, 0, 0, 0] }
    }

    /// A strided field over `data` with extents `dims` and strides `strides`.
    pub fn new_strided<D: ZfpDims, S: ZfpStrides>(data: &'a mut [u8], scalar_type: ZfpScalarType, dims: D, strides: S) -> (r: Self)
        ensures
            r.spec_data() == old(data)@,
            r.spec_scalar_type() == scalar_type,
            r.spec_dims() == dims.spec_to_array(),
            r.spec_strides() == strides.spec_to_array(),
    {
        ZfpFieldMut { data, scalar_type, dims: dims.to_array(), strides: strides.to_array() }
    }

    /// The scalar type.
    pub fn scalar_type(&self) -> (r: ZfpScalarType)
        ensures
            r == self.spec_scalar_type(),
    {
        self.scalar_type
    }

    /// The metadata word of the field's type and extents.
    pub fn metadata(&self) -> (r: Result<u64, ZfpMetadataError>)
        ensures
            r == spec_field_metadata(self.spec_scalar_type(), self.spec_dims()),
    {
        field_metadata(self.scalar_type, &self.dims)
    }

    /// Take type and extents from a metadata word, with natural strides;
    /// `false`, and the field unchanged, for an invalid word.
    pub fn set_metadata(&mut self, meta: u64) -> (r: bool)
        ensures
            r == (spec_decode_metadata(meta) is Some),
            final(self).spec_data() == old(self).spec_data(),
            r ==> (final(self).spec_scalar_type(), final(self).spec_dims()) == spec_decode_metadata(meta).unwrap()
                && final(self).spec_strides() == [0isize, 0, 0, 0],
            !r ==> final(self).spec_scalar_type() == old(self).spec_scalar_type() && final(self).spec_dims()
                == old(self).spec_dims() && final(self).spec_strides() == old(self).spec_strides(),
    {
        match ZfpFieldMetadata::from_bits(meta) {
            Some(m) => {
                self.scalar_type = m.scalar_type;
                self.dims = m.dims;
                self.strides = [0, 0, 0, 0];
                true
            },
            None => false,
        }
    }

    /// The dimensionality of the field.
    pub fn dimensionality(&self) -> (r: ZfpDimensionality)
        ensures
            r == spec_dimensionality(self.spec_dims()),
    {
        dimensionality(&self.dims)
    }

    /// The extents `[nx, ny, nz, nw]`.
    pub fn dims(&self) -> (r: [usize; 4])
        ensures
            r == self.spec_dims(),
    {
        self.dims
    }

    /// The strides as given (zero for the natural stride).
    pub fn strides(&self) -> (r: [isize; 4])
        ensures
            r == self.spec_strides(),
    {
        self.strides
    }

    /// The number of values.
    pub fn num_elements(&self) -> (r: usize)
        requires
            spec_num_elements(self.spec_dims()) <= usize::MAX,
        ensures
            r == spec_num_elements(self.spec_dims()),
    {
        num_elements(&self.dims)
    }

    /// The number of blocks of `4^d` values.
    pub fn num_blocks(&self) -> (r: usize)
        requires
            spec_num_blocks(self.spec_dims()) <= usize::MAX,
        ensures
            r == spec_num_blocks(self.spec_dims()),
    {
        num_blocks(&self.dims)
    }

    /// Whether the layout is the natural one.
    pub fn is_contiguous(&self) -> (r: bool)
        requires
            strides_fit(self.spec_dims(), [0isize, 0, 0, 0]),
        ensures
            r == spec_is_contiguous(self.spec_dims(), self.spec_strides()),
    {
        is_contiguous(&self.dims, &self.strides)
    }

    /// The strides in effect, zero strides replaced by the natural ones.
    pub fn effective_strides(&self) -> (r: [isize; 4])
        requires
            strides_fit(self.spec_dims(), self.spec_strides()),
        ensures
            r == spec_effective_strides(self.spec_dims(), self.spec_strides()),
    {
        effective_strides(&self.dims, &self.strides)
    }

    /// The bytes of the field.
    pub fn data(&self) -> (r: &[u8])
        ensures
            r@ == self.spec_data(),
    {
        self.data
    }

    /// Bits per value: 32 or 64.
    pub fn precision(&self) -> (r: u32)
        ensures
            r == self.spec_scalar_type().spec_precision(),
    {
        self.scalar_type.precision()
    }

    /// The least and greatest value offsets of the active axes.
    pub fn field_index_span(&self) -> (r: (isize, isize))
        requires
            span_fits(self.spec_dims(), self.spec_strides()),
        ensures
            r.0 == spec_index_span(self.spec_dims(), self.spec_strides()).0,
            r.1 == spec_index_span(self.spec_dims(), self.spec_strides()).1,
    {
        field_index_span(&self.dims, &self.strides)
    }

    /// The bytes the field spans, gaps between strided values included.
    pub fn size_bytes(&self) -> (r: usize)
        requires
            span_fits(self.spec_dims(), self.spec_strides()),
            (spec_index_span(self.spec_dims(), self.spec_strides()).1 - spec_index_span(self.spec_dims(),
                self.spec_strides()).0 + 1) * self.spec_scalar_type().spec_size() <= usize::MAX,
        ensures
            r == (spec_index_span(self.spec_dims(), self.spec_strides()).1 - spec_index_span(self.spec_dims(),
                self.spec_strides()).0 + 1) * self.spec_scalar_type().spec_size(),
    {
        size_bytes(&self.dims, &self.strides, self.scalar_type)
    }

    /// The bytes the field spans, or `None` when a count along the way overflows.
    pub fn checked_size_bytes(&self) -> (r: Option<usize>)
        ensures
            match r {
                Some(v) => spec_checked_size_bytes(self.spec_dims(), self.spec_strides(), self.spec_scalar_type()) == Some(v as int),
                None => spec_checked_size_bytes(self.spec_dims(), self.spec_strides(), self.spec_scalar_type()) is None,
            },
    {
        checked_size_bytes(&self.dims, &self.strides, self.scalar_type)
    }

    /// Hand back the borrowed bytes, holding everything written to the field.
    pub fn into_data(self) -> (r: &'a mut [u8])
        ensures
            r@ == self.spec_data(),
    {
        self.data
    }

    /// The bytes of the field, for writing.
    pub fn data_mut(&mut self) -> (r: &mut [u8])
        ensures
            r@ == old(self).spec_data(),
            final(self).spec_data() == final(r)@,
            final(self).spec_scalar_type() == old(self).spec_scalar_type(),
            final(self).spec_dims() == old(self).spec_dims(),
            final(self).spec_strides() == old(self).spec_strides(),
    {
        &mut *self.data
    }
}

} // verus!
