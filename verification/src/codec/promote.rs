//! Moving narrow integers into the 32-bit fixed-point representation of the
//! codec and back.
//!
//! A value is promoted by centring it (unsigned types) and shifting it into the
//! high bits of an `i32`; it is demoted by the opposite shift, re-centring and
//! clamping to the narrow type's range. Demotion undoes promotion.

use vstd::prelude::*;
use crate::types::ZfpDimensionality;

verus! {

proof fn shr_bounds(x: i32)
    ensures
        -0x1_0000 <= (x >> 23u32) < 0x1_0000,
        -0x1_0000 <= (x >> 15u32) < 0x1_0000,
{
    assert(-0x1_0000 <= (x >> 23u32) < 0x1_0000 && -0x1_0000 <= (x >> 15u32) < 0x1_0000) by (bit_vector);
}

/// A `i8` promoted to the codec's `i32`: centred and shifted left by 23.
pub open spec fn promote_i8_spec(v: i8) -> i32 {
    (v as int * 8388608) as i32
}

/// An `i32` demoted to `i8`: shifted right by 23, re-centred and clamped.
pub open spec fn demote_i8_spec(v: i32) -> i8 {
    let d = (v >> 23u32) as int + 0;
    (if d < -128 {
        -128
    } else if d > 127 {
        127
    } else {
        d
    }) as i8
}

proof fn shift_facts_i8(v: i8, c: i32)
    requires
        c == v as int,
    ensures
        (c << 23u32) == (v as int * 8388608) as i32,
        ((c << 23u32) >> 23u32) == c,
{
    assert((c << 23u32) == (v as int * 8388608) as i32 && ((c << 23u32) >> 23u32) == c) by (bit_vector)
        requires
            c == v as int,
    ;
}

/// Demoting a promoted `i8` gives the value back.
pub proof fn lemma_demote_promote_i8(v: i8)
    ensures
        demote_i8_spec(promote_i8_spec(v)) == v,
{
    shift_facts_i8(v, (v as int) as i32);
}

/// Promote the first block of `src` into `dst`, one value each.
pub fn promote_i8_to_i32(dst: &mut [i32], src: &[i8], dims: ZfpDimensionality)
    requires
        old(dst)@.len() >= dims.spec_block_size(),
        src@.len() >= dims.spec_block_size(),
    ensures
        final(dst)@.len() == old(dst)@.len(),
        forall|i: int| 0 <= i < dims.spec_block_size() ==> #[trigger] final(dst)@[i] == promote_i8_spec(src@[i]),
        forall|i: int| dims.spec_block_size() <= i < old(dst)@.len() ==> #[trigger] final(dst)@[i] == old(dst)@[i],
{
    let count = dims.block_size();
    let mut i: usize = 0;
    while i < count
        invariant
            count == dims.spec_block_size(),
            i <= count,
            dst@.len() == old(dst)@.len(),
            src@.len() >= count,
            dst@.len() >= count,
            forall|k: int| 0 <= k < i ==> #[trigger] dst@[k] == promote_i8_spec(src@[k]),
            forall|k: int| count <= k < dst@.len() ==> #[trigger] dst@[k] == old(dst)@[k],
        decreases count - i,
    {
        let v = src[i];
        let c: i32 = v as i32;
        proof {
            shift_facts_i8(v, c);
        }
        dst[i] = c << 23u32;
        i = i + 1;
    }
}

/// Demote the first block of `src` into `dst`, one value each.
pub fn demote_i32_to_i8(dst: &mut [i8], src: &[i32], dims: ZfpDimensionality)
    requires
        old(dst)@.len() >= dims.spec_block_size(),
        src@.len() >= dims.spec_block_size(),
    ensures
        final(dst)@.len() == old(dst)@.len(),
        forall|i: int| 0 <= i < dims.spec_block_size() ==> #[trigger] final(dst)@[i] == demote_i8_spec(src@[i]),
        forall|i: int| dims.spec_block_size() <= i < old(dst)@.len() ==> #[trigger] final(dst)@[i] == old(dst)@[i],
{
    let count = dims.block_size();
    let mut i: usize = 0;
    while i < count
        invariant
            count == dims.spec_block_size(),
            i <= count,
            dst@.len() == old(dst)@.len(),
            src@.len() >= count,
            dst@.len() >= count,
            forall|k: int| 0 <= k < i ==> #[trigger] dst@[k] == demote_i8_spec(src@[k]),
            forall|k: int| count <= k < dst@.len() ==> #[trigger] dst@[k] == old(dst)@[k],
        decreases count - i,
    {
        let x = src[i];
        proof {
            shr_bounds(x);
        }
        let v = (x >> 23u32);
        let r: i8 = if v < -128 {
            -128
        } else if v > 127 {
            127
        } else {
            v as i8
        };
        dst[i] = r;
        i = i + 1;
    }
}

/// A `u8` promoted to the codec's `i32`: centred and shifted left by 23.
pub open spec fn promote_u8_spec(v: u8) -> i32 {
    ((v as int - 128) * 8388608) as i32
}

/// An `i32` demoted to `u8`: shifted right by 23, re-centred and clamped.
pub open spec fn demote_u8_spec(v: i32) -> u8 {
    let d = (v >> 23u32) as int + 128;
    (if d < 0 {
        0
    } else if d > 255 {
        255
    } else {
        d
    }) as u8
}

proof fn shift_facts_u8(v: u8, c: i32)
    requires
        c == (v as int - 128),
    ensures
        (c << 23u32) == ((v as int - 128) * 8388608) as i32,
        ((c << 23u32) >> 23u32) == c,
{
    assert((c << 23u32) == ((v as int - 128) * 8388608) as i32 && ((c << 23u32) >> 23u32) == c) by (bit_vector)
        requires
            c == (v as int - 128),
    ;
}

/// Demoting a promoted `u8` gives the value back.
pub proof fn lemma_demote_promote_u8(v: u8)
    ensures
        demote_u8_spec(promote_u8_spec(v)) == v,
{
    shift_facts_u8(v, ((v as int - 128)) as i32);
}

/// Promote the first block of `src` into `dst`, one value each.
pub fn promote_u8_to_i32(dst: &mut [i32], src: &[u8], dims: ZfpDimensionality)
    requires
        old(dst)@.len() >= dims.spec_block_size(),
        src@.len() >= dims.spec_block_size(),
    ensures
        final(dst)@.len() == old(dst)@.len(),
        forall|i: int| 0 <= i < dims.spec_block_size() ==> #[trigger] final(dst)@[i] == promote_u8_spec(src@[i]),
        forall|i: int| dims.spec_block_size() <= i < old(dst)@.len() ==> #[trigger] final(dst)@[i] == old(dst)@[i],
{
    let count = dims.block_size();
    let mut i: usize = 0;
    while i < count
        invariant
            count == dims.spec_block_size(),
            i <= count,
            dst@.len() == old(dst)@.len(),
            src@.len() >= count,
            dst@.len() >= count,
            forall|k: int| 0 <= k < i ==> #[trigger] dst@[k] == promote_u8_spec(src@[k]),
            forall|k: int| count <= k < dst@.len() ==> #[trigger] dst@[k] == old(dst)@[k],
        decreases count - i,
    {
        let v = src[i];
        let c: i32 = (v as i32) - 128;
        proof {
            shift_facts_u8(v, c);
        }
        dst[i] = c << 23u32;
        i = i + 1;
    }
}

/// Demote the first block of `src` into `dst`, one value each.
pub fn demote_i32_to_u8(dst: &mut [u8], src: &[i32], dims: ZfpDimensionality)
    requires
        old(dst)@.len() >= dims.spec_block_size(),
        src@.len() >= dims.spec_block_size(),
    ensures
        final(dst)@.len() == old(dst)@.len(),
        forall|i: int| 0 <= i < dims.spec_block_size() ==> #[trigger] final(dst)@[i] == demote_u8_spec(src@[i]),
        forall|i: int| dims.spec_block_size() <= i < old(dst)@.len() ==> #[trigger] final(dst)@[i] == old(dst)@[i],
{
    let count = dims.block_size();
    let mut i: usize = 0;
    while i < count
        invariant
            count == dims.spec_block_size(),
            i <= count,
            dst@.len() == old(dst)@.len(),
            src@.len() >= count,
            dst@.len() >= count,
            forall|k: int| 0 <= k < i ==> #[trigger] dst@[k] == demote_u8_spec(src@[k]),
            forall|k: int| count <= k < dst@.len() ==> #[trigger] dst@[k] == old(dst)@[k],
        decreases count - i,
    {
        let x = src[i];
        proof {
            shr_bounds(x);
        }
        let v = (x >> 23u32) + 128;
        let r: u8 = if v < 0 {
            0
        } else if v > 255 {
            255
        } else {
            v as u8
        };
        dst[i] = r;
        i = i + 1;
    }
}

/// A `i16` promoted to the codec's `i32`: centred and shifted left by 15.
pub open spec fn promote_i16_spec(v: i16) -> i32 {
    (v as int * 32768) as i32
}

/// An `i32` demoted to `i16`: shifted right by 15, re-centred and clamped.
pub open spec fn demote_i16_spec(v: i32) -> i16 {
    let d = (v >> 15u32) as int + 0;
    (if d < -32768 {
        -32768
    } else if d > 32767 {
        32767
    } else {
        d
    }) as i16
}

proof fn shift_facts_i16(v: i16, c: i32)
    requires
        c == v as int,
    ensures
        (c << 15u32) == (v as int * 32768) as i32,
        ((c << 15u32) >> 15u32) == c,
{
    assert((c << 15u32) == (v as int * 32768) as i32 && ((c << 15u32) >> 15u32) == c) by (bit_vector)
        requires
            c == v as int,
    ;
}

/// Demoting a promoted `i16` gives the value back.
pub proof fn lemma_demote_promote_i16(v: i16)
    ensures
        demote_i16_spec(promote_i16_spec(v)) == v,
{
    shift_facts_i16(v, (v as int) as i32);
}

/// Promote the first block of `src` into `dst`, one value each.
pub fn promote_i16_to_i32(dst: &mut [i32], src: &[i16], dims: ZfpDimensionality)
    requires
        old(dst)@.len() >= dims.spec_block_size(),
        src@.len() >= dims.spec_block_size(),
    ensures
        final(dst)@.len() == old(dst)@.len(),
        forall|i: int| 0 <= i < dims.spec_block_size() ==> #[trigger] final(dst)@[i] == promote_i16_spec(src@[i]),
        forall|i: int| dims.spec_block_size() <= i < old(dst)@.len() ==> #[trigger] final(dst)@[i] == old(dst)@[i],
{
    let count = dims.block_size();
    let mut i: usize = 0;
    while i < count
        invariant
            count == dims.spec_block_size(),
            i <= count,
            dst@.len() == old(dst)@.len(),
            src@.len() >= count,
            dst@.len() >= count,
            forall|k: int| 0 <= k < i ==> #[trigger] dst@[k] == promote_i16_spec(src@[k]),
            forall|k: int| count <= k < dst@.len() ==> #[trigger] dst@[k] == old(dst)@[k],
        decreases count - i,
    {
        let v = src[i];
        let c: i32 = v as i32;
        proof {
            shift_facts_i16(v, c);
        }
        dst[i] = c << 15u32;
        i = i + 1;
    }
}

/// Demote the first block of `src` into `dst`, one value each.
pub fn demote_i32_to_i16(dst: &mut [i16], src: &[i32], dims: ZfpDimensionality)
    requires
        old(dst)@.len() >= dims.spec_block_size(),
        src@.len() >= dims.spec_block_size(),
    ensures
        final(dst)@.len() == old(dst)@.len(),
        forall|i: int| 0 <= i < dims.spec_block_size() ==> #[trigger] final(dst)@[i] == demote_i16_spec(src@[i]),
        forall|i: int| dims.spec_block_size() <= i < old(dst)@.len() ==> #[trigger] final(dst)@[i] == old(dst)@[i],
{
    let count = dims.block_size();
    let mut i: usize = 0;
    while i < count
        invariant
            count == dims.spec_block_size(),
            i <= count,
            dst@.len() == old(dst)@.len(),
            src@.len() >= count,
            dst@.len() >= count,
            forall|k: int| 0 <= k < i ==> #[trigger] dst@[k] == demote_i16_spec(src@[k]),
            forall|k: int| count <= k < dst@.len() ==> #[trigger] dst@[k] == old(dst)@[k],
        decreases count - i,
    {
        let x = src[i];
        proof {
            shr_bounds(x);
        }
        let v = (x >> 15u32);
        let r: i16 = if v < -32768 {
            -32768
        } else if v > 32767 {
            32767
        } else {
            v as i16
        };
        dst[i] = r;
        i = i + 1;
    }
}

/// A `u16` promoted to the codec's `i32`: centred and shifted left by 15.
pub open spec fn promote_u16_spec(v: u16) -> i32 {
    ((v as int - 32768) * 32768) as i32
}

/// An `i32` demoted to `u16`: shifted right by 15, re-centred and clamped.
pub open spec fn demote_u16_spec(v: i32) -> u16 {
    let d = (v >> 15u32) as int + 32768;
    (if d < 0 {
        0
    } else if d > 65535 {
        65535
    } else {
        d
    }) as u16
}

proof fn shift_facts_u16(v: u16, c: i32)
    requires
        c == (v as int - 32768),
    ensures
        (c << 15u32) == ((v as int - 32768) * 32768) as i32,
        ((c << 15u32) >> 15u32) == c,
{
    assert((c << 15u32) == ((v as int - 32768) * 32768) as i32 && ((c << 15u32) >> 15u32) == c) by (bit_vector)
        requires
            c == (v as int - 32768),
    ;
}

/// Demoting a promoted `u16` gives the value back.
pub proof fn lemma_demote_promote_u16(v: u16)
    ensures
        demote_u16_spec(promote_u16_spec(v)) == v,
{
    shift_facts_u16(v, ((v as int - 32768)) as i32);
}

/// Promote the first block of `src` into `dst`, one value each.
pub fn promote_u16_to_i32(dst: &mut [i32], src: &[u16], dims: ZfpDimensionality)
    requires
        old(dst)@.len() >= dims.spec_block_size(),
        src@.len() >= dims.spec_block_size(),
    ensures
        final(dst)@.len() == old(dst)@.len(),
        forall|i: int| 0 <= i < dims.spec_block_size() ==> #[trigger] final(dst)@[i] == promote_u16_spec(src@[i]),
        forall|i: int| dims.spec_block_size() <= i < old(dst)@.len() ==> #[trigger] final(dst)@[i] == old(dst)@[i],
{
    let count = dims.block_size();
    let mut i: usize = 0;
    while i < count
        invariant
            count == dims.spec_block_size(),
            i <= count,
            dst@.len() == old(dst)@.len(),
            src@.len() >= count,
            dst@.len() >= count,
            forall|k: int| 0 <= k < i ==> #[trigger] dst@[k] == promote_u16_spec(src@[k]),
            forall|k: int| count <= k < dst@.len() ==> #[trigger] dst@[k] == old(dst)@[k],
        decreases count - i,
    {
        let v = src[i];
        let c: i32 = (v as i32) - 32768;
        proof {
            shift_facts_u16(v, c);
        }
        dst[i] = c << 15u32;
        i = i + 1;
    }
}

/// Demote the first block of `src` into `dst`, one value each.
pub fn demote_i32_to_u16(dst: &mut [u16], src: &[i32], dims: ZfpDimensionality)
    requires
        old(dst)@.len() >= dims.spec_block_size(),
        src@.len() >= dims.spec_block_size(),
    ensures
        final(dst)@.len() == old(dst)@.len(),
        forall|i: int| 0 <= i < dims.spec_block_size() ==> #[trigger] final(dst)@[i] == demote_u16_spec(src@[i]),
        forall|i: int| dims.spec_block_size() <= i < old(dst)@.len() ==> #[trigger] final(dst)@[i] == old(dst)@[i],
{
    let count = dims.block_size();
    let mut i: usize = 0;
    while i < count
        invariant
            count == dims.spec_block_size(),
            i <= count,
            dst@.len() == old(dst)@.len(),
            src@.len() >= count,
            dst@.len() >= count,
            forall|k: int| 0 <= k < i ==> #[trigger] dst@[k] == demote_u16_spec(src@[k]),
            forall|k: int| count <= k < dst@.len() ==> #[trigger] dst@[k] == old(dst)@[k],
        decreases count - i,
    {
        let x = src[i];
        proof {
            shr_bounds(x);
        }
        let v = (x >> 15u32) + 32768;
        let r: u16 = if v < 0 {
            0
        } else if v > 65535 {
            65535
        } else {
            v as u16
        };
        dst[i] = r;
        i = i + 1;
    }
}

} // verus!
