//! Negabinary conversion and the coefficient order of a block.
//!
//! Before coding, the transformed coefficients are put in an order of
//! roughly decreasing magnitude and mapped to negabinary, whose leading
//! zero bits stand for small magnitudes of either sign.

use vstd::prelude::*;
use vstd::compute::RangeAll;

verus! {

broadcast use vstd::compute::all_spec_ensures;

/// Coefficient order of a 4-value block.
pub const PERM_1: [u8; 4] = [0, 1, 2, 3];

/// The position of each coefficient in [`PERM_1`].
pub const PERM_1_INV: [u8; 4] = [0, 1, 2, 3];

/// Coefficient order of a 4x4 block; the index of `(x, y)` is `x + 4y`.
pub const PERM_2: [u8; 16] = [0, 1, 4, 5, 2, 8, 6, 9, 3, 12, 10, 7, 13, 11, 14, 15];

/// The position of each coefficient in [`PERM_2`].
pub const PERM_2_INV: [u8; 16] = [0, 1, 4, 8, 2, 3, 6, 11, 5, 7, 10, 13, 9, 12, 14, 15];

/// Coefficient order of a 4x4x4 block; the index of `(x, y, z)` is `x + 4y + 16z`.
pub const PERM_3: [u8; 64] = [0, 1, 4, 16, 20, 17, 5, 2, 8, 32, 21, 6, 18, 24, 9, 33, 36, 3, 12, 48, 22, 25, 37, 40, 34, 10, 7, 19, 28, 13, 49, 52, 41, 38, 26, 23, 29, 53, 11, 35, 44, 14, 50, 56, 42, 27, 39, 45, 30, 54, 57, 60, 51, 15, 43, 46, 58, 61, 55, 31, 62, 59, 47, 63];

/// The position of each coefficient in [`PERM_3`].
pub const PERM_3_INV: [u8; 64] = [0, 1, 7, 17, 2, 6, 11, 26, 8, 14, 25, 38, 18, 29, 41, 53, 3, 5, 12, 27, 4, 10, 20, 35, 13, 21, 34, 45, 28, 36, 48, 59, 9, 15, 24, 39, 16, 22, 33, 46, 23, 32, 44, 54, 40, 47, 55, 62, 19, 30, 42, 52, 31, 37, 49, 58, 43, 50, 56, 61, 51, 57, 60, 63];

/// Coefficient order of a 4x4x4x4 block; the index of `(x, y, z, w)` is `x + 4y + 16z + 64w`.
pub const PERM_4: [u8; 256] = [0, 1, 4, 16, 64, 5, 80, 17, 68, 65, 20, 2, 8, 32, 128, 84, 81, 69, 21, 6, 18, 66, 24, 72, 9, 96, 33, 36, 129, 132, 144, 3, 12, 48, 192, 85, 82, 70, 22, 73, 25, 88, 37, 100, 97, 148, 145, 133, 10, 160, 34, 136, 130, 40, 7, 19, 67, 28, 76, 13, 112, 49, 52, 193, 196, 208, 86, 89, 101, 149, 161, 137, 41, 134, 38, 164, 26, 152, 146, 104, 98, 74, 83, 71, 23, 77, 29, 92, 53, 116, 113, 212, 209, 197, 11, 35, 131, 44, 140, 14, 176, 50, 56, 194, 200, 224, 90, 165, 102, 153, 150, 105, 168, 162, 138, 42, 87, 93, 117, 213, 27, 75, 99, 39, 135, 147, 108, 45, 141, 156, 30, 78, 177, 180, 54, 114, 120, 57, 198, 210, 216, 201, 225, 228, 15, 240, 51, 204, 195, 60, 169, 166, 154, 106, 91, 103, 151, 109, 157, 94, 181, 118, 121, 214, 217, 229, 163, 139, 43, 142, 46, 172, 58, 184, 178, 232, 226, 202, 241, 205, 61, 199, 55, 244, 31, 220, 211, 124, 115, 79, 170, 167, 155, 107, 158, 110, 173, 122, 185, 182, 233, 230, 218, 95, 245, 119, 221, 215, 125, 242, 206, 62, 203, 59, 248, 47, 236, 227, 188, 179, 143, 171, 174, 186, 234, 246, 222, 126, 219, 123, 249, 111, 237, 231, 189, 183, 159, 252, 243, 207, 63, 175, 250, 187, 238, 235, 190, 253, 247, 223, 127, 254, 251, 239, 191, 255];

/// The position of each coefficient in [`PERM_4`].
pub const PERM_4_INV: [u8; 256] = [0, 1, 11, 31, 2, 5, 19, 54, 12, 24, 48, 94, 32, 59, 99, 144, 3, 7, 20, 55, 10, 18, 38, 84, 22, 40, 76, 120, 57, 86, 130, 184, 13, 26, 50, 95, 27, 42, 74, 123, 53, 72, 115, 168, 97, 127, 170, 215, 33, 61, 101, 146, 62, 88, 134, 182, 102, 137, 172, 213, 149, 180, 211, 240, 4, 9, 21, 56, 8, 17, 37, 83, 23, 39, 81, 121, 58, 85, 131, 189, 6, 16, 36, 82, 15, 35, 66, 116, 41, 67, 106, 154, 87, 117, 159, 203, 25, 44, 80, 122, 43, 68, 108, 155, 79, 111, 153, 193, 126, 157, 195, 231, 60, 90, 135, 188, 89, 118, 161, 205, 136, 162, 197, 229, 187, 208, 227, 250, 14, 28, 52, 96, 29, 47, 73, 124, 51, 71, 114, 167, 98, 128, 169, 220, 30, 46, 78, 125, 45, 69, 110, 156, 77, 109, 152, 192, 129, 158, 194, 236, 49, 70, 113, 166, 75, 107, 151, 191, 112, 150, 190, 221, 171, 196, 222, 241, 100, 132, 174, 219, 133, 160, 199, 235, 173, 198, 223, 243, 218, 234, 246, 254, 34, 63, 103, 148, 64, 93, 138, 181, 104, 141, 177, 212, 147, 179, 210, 239, 65, 92, 139, 186, 91, 119, 163, 207, 140, 164, 202, 228, 185, 206, 226, 249, 105, 142, 176, 217, 143, 165, 201, 233, 175, 200, 224, 245, 216, 232, 244, 253, 145, 178, 209, 238, 183, 204, 225, 248, 214, 230, 242, 252, 237, 247, 251, 255];

/// The coefficient order of a `d`-dimensional block.
pub open spec fn perm(d: nat) -> Seq<u8> {
    if d == 1 {
        PERM_1@
    } else if d == 2 {
        PERM_2@
    } else if d == 3 {
        PERM_3@
    } else {
        PERM_4@
    }
}

/// The position of each coefficient in the order of a `d`-dimensional block.
pub open spec fn perm_inv(d: nat) -> Seq<u8> {
    if d == 1 {
        PERM_1_INV@
    } else if d == 2 {
        PERM_2_INV@
    } else if d == 3 {
        PERM_3_INV@
    } else {
        PERM_4_INV@
    }
}

/// `p` is a permutation of `0..n` with inverse `q`.
pub open spec fn is_perm_with_inverse(p: Seq<u8>, q: Seq<u8>, n: int) -> bool {
    &&& p.len() == n
    &&& q.len() == n
    &&& forall|i: int| 0 <= i < n ==> #[trigger] p[i] < n && q[p[i] as int] == i
    &&& forall|j: int| 0 <= j < n ==> #[trigger] q[j] < n && p[q[j] as int] == j
}

/// `4^d`.
pub open spec fn pow4n(d: nat) -> int {
    if d == 1 {
        4
    } else if d == 2 {
        16
    } else if d == 3 {
        64
    } else {
        256
    }
}

/// Each coefficient order is a permutation, undone by its inverse table.
pub proof fn lemma_perm_is_permutation(d: nat)
    requires
        1 <= d <= 4,
    ensures
        is_perm_with_inverse(perm(d), perm_inv(d), pow4n(d)),
{
    if d == 1 {
        assert forall|i: int| 0 <= i < 4 implies #[trigger] PERM_1@[i] < 4 && PERM_1_INV@[PERM_1@[i] as int] == i by {
        }
        assert forall|j: int| 0 <= j < 4 implies #[trigger] PERM_1_INV@[j] < 4 && PERM_1@[PERM_1_INV@[j] as int] == j by {
        }
    }
    if d == 2 {
        assert forall|i: int| 0 <= i < 16 implies #[trigger] PERM_2@[i] < 16 && PERM_2_INV@[PERM_2@[i] as int] == i by {
        }
        assert forall|j: int| 0 <= j < 16 implies #[trigger] PERM_2_INV@[j] < 16 && PERM_2@[PERM_2_INV@[j] as int] == j by {
        }
    }
    if d == 3 {
        assert forall|i: int| 0 <= i < 64 implies #[trigger] PERM_3@[i] < 64 && PERM_3_INV@[PERM_3@[i] as int] == i by {
        }
        assert forall|j: int| 0 <= j < 64 implies #[trigger] PERM_3_INV@[j] < 64 && PERM_3@[PERM_3_INV@[j] as int] == j by {
        }
    }
    if d == 4 {
        assert forall|i: int| 0 <= i < 256 implies #[trigger] PERM_4@[i] < 256 && PERM_4_INV@[PERM_4@[i] as int] == i by {
        }
        assert forall|j: int| 0 <= j < 256 implies #[trigger] PERM_4_INV@[j] < 256 && PERM_4@[PERM_4_INV@[j] as int] == j by {
        }
    }
}

/// The negabinary code of a 32-bit integer.
pub open spec fn int2uint_spec_i32(x: i32) -> u32 {
    ((x as u32).wrapping_add(0xaaaa_aaaau32)) ^ 0xaaaa_aaaau32
}

/// The 32-bit integer of a negabinary code.
pub open spec fn uint2int_spec_u32(x: u32) -> i32 {
    ((x ^ 0xaaaa_aaaau32).wrapping_sub(0xaaaa_aaaau32)) as i32
}

/// The negabinary code of a 64-bit integer.
pub open spec fn int2uint_spec_i64(x: i64) -> u64 {
    ((x as u64).wrapping_add(0xaaaa_aaaa_aaaa_aaaau64)) ^ 0xaaaa_aaaa_aaaa_aaaau64
}

/// The 64-bit integer of a negabinary code.
pub open spec fn uint2int_spec_u64(x: u64) -> i64 {
    ((x ^ 0xaaaa_aaaa_aaaa_aaaau64).wrapping_sub(0xaaaa_aaaa_aaaa_aaaau64)) as i64
}

/// Negabinary decoding undoes negabinary coding, for both widths.
pub proof fn lemma_negabinary_roundtrip(x: i32, y: i64)
    ensures
        uint2int_spec_u32(int2uint_spec_i32(x)) == x,
        uint2int_spec_u64(int2uint_spec_i64(y)) == y,
{
    let a = (x as u32).wrapping_add(0xaaaa_aaaau32);
    let b = (a ^ 0xaaaa_aaaau32) ^ 0xaaaa_aaaau32;
    let c = (y as u64).wrapping_add(0xaaaa_aaaa_aaaa_aaaau64);
    let e = (c ^ 0xaaaa_aaaa_aaaa_aaaau64) ^ 0xaaaa_aaaa_aaaa_aaaau64;
    assert(b == a && e == c && (x as u32) as i32 == x && (y as u64) as i64 == y) by (bit_vector)
        requires
            b == (a ^ 0xaaaa_aaaau32) ^ 0xaaaa_aaaau32,
            e == (c ^ 0xaaaa_aaaa_aaaa_aaaau64) ^ 0xaaaa_aaaa_aaaa_aaaau64,
    ;
    assert(b.wrapping_sub(0xaaaa_aaaau32) == x as u32);
    assert(e.wrapping_sub(0xaaaa_aaaa_aaaa_aaaau64) == y as u64);
}

/// The negabinary code of a 32-bit integer.
pub fn int2uint_i32(x: i32) -> (r: u32)
    ensures
        r == int2uint_spec_i32(x),
{
    (x as u32).wrapping_add(0xaaaa_aaaau32) ^ 0xaaaa_aaaau32
}

/// The 32-bit integer of a negabinary code.
pub fn uint2int_u32(x: u32) -> (r: i32)
    ensures
        r == uint2int_spec_u32(x),
{
    (x ^ 0xaaaa_aaaau32).wrapping_sub(0xaaaa_aaaau32) as i32
}

/// The negabinary code of a 64-bit integer.
pub fn int2uint_i64(x: i64) -> (r: u64)
    ensures
        r == int2uint_spec_i64(x),
{
    (x as u64).wrapping_add(0xaaaa_aaaa_aaaa_aaaau64) ^ 0xaaaa_aaaa_aaaa_aaaau64
}

/// The 64-bit integer of a negabinary code.
pub fn uint2int_u64(x: u64) -> (r: i64)
    ensures
        r == uint2int_spec_u64(x),
{
    (x ^ 0xaaaa_aaaa_aaaa_aaaau64).wrapping_sub(0xaaaa_aaaa_aaaa_aaaau64) as i64
}

/// The coefficient order of a `d`-dimensional block.
fn perm_table(d: usize) -> (r: &'static [u8])
    requires
        1 <= d <= 4,
    ensures
        r@ == perm(d as nat),
{
    if d == 1 {
        PERM_1.as_slice()
    } else if d == 2 {
        PERM_2.as_slice()
    } else if d == 3 {
        PERM_3.as_slice()
    } else {
        PERM_4.as_slice()
    }
}

/// A block put in coefficient order, as negabinary codes.
pub open spec fn fwd_order_spec_i32(x: Seq<i32>, d: nat) -> Seq<u64> {
    Seq::new(pow4n(d) as nat, |i: int| int2uint_spec_i32(x[perm(d)[i] as int]) as u64)
}

/// A block put in coefficient order, as negabinary codes.
pub open spec fn fwd_order_spec_i64(x: Seq<i64>, d: nat) -> Seq<u64> {
    Seq::new(pow4n(d) as nat, |i: int| int2uint_spec_i64(x[perm(d)[i] as int]))
}

/// Negabinary codes in coefficient order put back in block order.
pub open spec fn inv_order_spec_i32(u: Seq<u64>, d: nat) -> Seq<i32> {
    Seq::new(pow4n(d) as nat, |j: int| uint2int_spec_u32(u[perm_inv(d)[j] as int] as u32))
}

/// Negabinary codes in coefficient order put back in block order.
pub open spec fn inv_order_spec_i64(u: Seq<u64>, d: nat) -> Seq<i64> {
    Seq::new(pow4n(d) as nat, |j: int| uint2int_spec_u64(u[perm_inv(d)[j] as int]))
}

/// Put a `d`-dimensional block in coefficient order, as negabinary codes.
pub fn fwd_order_i32(iblock: &[i32], d: usize) -> (r: Vec<u64>)
    requires
        1 <= d <= 4,
        iblock@.len() == pow4n(d as nat),
    ensures
        r@ == fwd_order_spec_i32(iblock@, d as nat),
{
    let p = perm_table(d);
    let n = iblock.len();
    proof {
        lemma_perm_is_permutation(d as nat);
    }
    let mut out: Vec<u64> = Vec::new();
    let mut i: usize = 0;
    while i < n
        invariant
            n == iblock@.len(),
            n == pow4n(d as nat),
            p@ == perm(d as nat),
            is_perm_with_inverse(perm(d as nat), perm_inv(d as nat), pow4n(d as nat)),
            i <= n,
            out@.len() == i,
            forall|t: int| 0 <= t < i ==> #[trigger] out@[t] == int2uint_spec_i32(iblock@[p@[t] as int]) as u64,
        decreases n - i,
    {
        let v = iblock[p[i] as usize];
        out.push(int2uint_i32(v) as u64);
        i = i + 1;
    }
    proof {
        assert(out@ =~= fwd_order_spec_i32(iblock@, d as nat));
    }
    out
}

/// Put negabinary codes in coefficient order back in block order.
pub fn inv_order_i32(ublock: &[u64], iblock: &mut [i32], d: usize)
    requires
        1 <= d <= 4,
        ublock@.len() == pow4n(d as nat),
        old(iblock)@.len() == pow4n(d as nat),
    ensures
        final(iblock)@ == inv_order_spec_i32(ublock@, d as nat),
{
    let p = perm_table(d);
    let n = ublock.len();
    proof {
        lemma_perm_is_permutation(d as nat);
    }
    let mut i: usize = 0;
    while i < n
        invariant
            n == ublock@.len(),
            n == pow4n(d as nat),
            iblock@.len() == n,
            p@ == perm(d as nat),
            is_perm_with_inverse(perm(d as nat), perm_inv(d as nat), pow4n(d as nat)),
            i <= n,
            forall|t: int| 0 <= t < i ==> #[trigger] iblock@[p@[t] as int] == uint2int_spec_u32(ublock@[t] as u32),
        decreases n - i,
    {
        let ghost before = iblock@;
        let v = uint2int_u32(ublock[i] as u32);
        iblock[p[i] as usize] = v;
        proof {
            assert forall|t: int| 0 <= t < i + 1 implies #[trigger] iblock@[p@[t] as int] == uint2int_spec_u32(ublock@[t] as u32) by {
                if t < i {
                    assert(perm_inv(d as nat)[p@[t] as int] == t);
                    assert(perm_inv(d as nat)[p@[i as int] as int] == i);
                }
            }
        }
        i = i + 1;
    }
    proof {
        assert forall|j: int| 0 <= j < n implies #[trigger] iblock@[j] == inv_order_spec_i32(ublock@, d as nat)[j] by {
            let t = perm_inv(d as nat)[j] as int;
            assert(p@[t] == j);
        }
        assert(iblock@ =~= inv_order_spec_i32(ublock@, d as nat));
    }
}

/// Put a `d`-dimensional block in coefficient order, as negabinary codes.
pub fn fwd_order_i64(iblock: &[i64], d: usize) -> (r: Vec<u64>)
    requires
        1 <= d <= 4,
        iblock@.len() == pow4n(d as nat),
    ensures
        r@ == fwd_order_spec_i64(iblock@, d as nat),
{
    let p = perm_table(d);
    let n = iblock.len();
    proof {
        lemma_perm_is_permutation(d as nat);
    }
    let mut out: Vec<u64> = Vec::new();
    let mut i: usize = 0;
    while i < n
        invariant
            n == iblock@.len(),
            n == pow4n(d as nat),
            p@ == perm(d as nat),
            is_perm_with_inverse(perm(d as nat), perm_inv(d as nat), pow4n(d as nat)),
            i <= n,
            out@.len() == i,
            forall|t: int| 0 <= t < i ==> #[trigger] out@[t] == int2uint_spec_i64(iblock@[p@[t] as int]),
        decreases n - i,
    {
        let v = iblock[p[i] as usize];
        out.push(int2uint_i64(v));
        i = i + 1;
    }
    proof {
        assert(out@ =~= fwd_order_spec_i64(iblock@, d as nat));
    }
    out
}

/// Put negabinary codes in coefficient order back in block order.
pub fn inv_order_i64(ublock: &[u64], iblock: &mut [i64], d: usize)
    requires
        1 <= d <= 4,
        ublock@.len() == pow4n(d as nat),
        old(iblock)@.len() == pow4n(d as nat),
    ensures
        final(iblock)@ == inv_order_spec_i64(ublock@, d as nat),
{
    let p = perm_table(d);
    let n = ublock.len();
    proof {
        lemma_perm_is_permutation(d as nat);
    }
    let mut i: usize = 0;
    while i < n
        invariant
            n == ublock@.len(),
            n == pow4n(d as nat),
            iblock@.len() == n,
            p@ == perm(d as nat),
            is_perm_with_inverse(perm(d as nat), perm_inv(d as nat), pow4n(d as nat)),
            i <= n,
            forall|t: int| 0 <= t < i ==> #[trigger] iblock@[p@[t] as int] == uint2int_spec_u64(ublock@[t]),
        decreases n - i,
    {
        let ghost before = iblock@;
        let v = uint2int_u64(ublock[i]);
        iblock[p[i] as usize] = v;
        proof {
            assert forall|t: int| 0 <= t < i + 1 implies #[trigger] iblock@[p@[t] as int] == uint2int_spec_u64(ublock@[t]) by {
                if t < i {
                    assert(perm_inv(d as nat)[p@[t] as int] == t);
                    assert(perm_inv(d as nat)[p@[i as int] as int] == i);
                }
            }
        }
        i = i + 1;
    }
    proof {
        assert forall|j: int| 0 <= j < n implies #[trigger] iblock@[j] == inv_order_spec_i64(ublock@, d as nat)[j] by {
            let t = perm_inv(d as nat)[j] as int;
            assert(p@[t] == j);
        }
        assert(iblock@ =~= inv_order_spec_i64(ublock@, d as nat));
    }
}

/// Putting a block in coefficient order as negabinary codes and back gives the block.
pub proof fn lemma_order_roundtrip(x: Seq<i32>, y: Seq<i64>, d: nat)
    requires
        1 <= d <= 4,
        x.len() == pow4n(d),
        y.len() == pow4n(d),
    ensures
        inv_order_spec_i32(fwd_order_spec_i32(x, d), d) == x,
        inv_order_spec_i64(fwd_order_spec_i64(y, d), d) == y,
{
    lemma_perm_is_permutation(d);
    assert forall|j: int| 0 <= j < x.len() implies #[trigger] inv_order_spec_i32(fwd_order_spec_i32(x, d), d)[j] == x[j] by {
        let t = perm_inv(d)[j] as int;
        lemma_negabinary_roundtrip(x[j], 0);
        let c = int2uint_spec_i32(x[j]);
        assert((c as u64) as u32 == c);
    }
    assert forall|j: int| 0 <= j < y.len() implies #[trigger] inv_order_spec_i64(fwd_order_spec_i64(y, d), d)[j] == y[j] by {
        let t = perm_inv(d)[j] as int;
        lemma_negabinary_roundtrip(0, y[j]);
    }
    assert(inv_order_spec_i32(fwd_order_spec_i32(x, d), d) =~= x);
    assert(inv_order_spec_i64(fwd_order_spec_i64(y, d), d) =~= y);
}

} // verus!
