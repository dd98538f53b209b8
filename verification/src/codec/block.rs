//! Coding of one block of integers: decorrelating transform, coefficient
//! order, negabinary and embedded coding, in the lossy and the reversible
//! variants.

use vstd::prelude::*;
use crate::bitstream::ops::{ZfpBitStreamMutOps, ZfpBitStreamOps};
use crate::bitstream::stream_core::{has_room, lemma_reads_within, low_bits, reads_within, zero_bits};
use crate::codec::embedded::{decode_ints, emb_decode, emb_encode, encode_ints, plane_bit, planes_bits};
use crate::codec::order::{
    fwd_order_i32, fwd_order_i64, fwd_order_spec_i32, fwd_order_spec_i64, inv_order_i32, inv_order_i64,
    inv_order_spec_i32, inv_order_spec_i64, pow4n,
};
use crate::codec::transform::{pow4, xform_block_i32, xform_block_i64, xform_spec_i32, xform_spec_i64, LiftKind};

verus! {

/// The bit budget the embedded coder works with: `maxbits` when the planes
/// could need more than that, unbounded (`u32::MAX`) otherwise.
pub open spec fn coded_budget(maxbits: u32, maxprec: u32, size: int) -> int {
    if (maxprec + 1) * size > maxbits + 1 {
        maxbits as int
    } else {
        u32::MAX as int
    }
}

/// `a - b`, or zero when `b` exceeds `a`.
pub open spec fn sat_sub(a: u32, b: u32) -> u32 {
    if a >= b {
        (a - b) as u32
    } else {
        0
    }
}

/// `e` padded with zero bits up to `minbits` bits.
pub open spec fn pad_bits(e: Seq<bool>, minbits: int) -> Seq<bool> {
    if e.len() < minbits {
        e + zero_bits((minbits - e.len()) as nat)
    } else {
        e
    }
}

pub(crate) proof fn pow4_agrees(d: nat)
    requires
        1 <= d <= 4,
    ensures
        pow4(d) == pow4n(d),
{
    reveal_with_fuel(pow4, 5);
}

fn budget(maxbits: u32, maxprec: u32, size: usize) -> (r: u32)
    requires
        size <= 256,
    ensures
        r == coded_budget(maxbits, maxprec, size as int),
{
    assert((maxprec as u64 + 1) * (size as u64) <= 0x1_0000_0000 * 256) by (nonlinear_arith)
        requires
            size <= 256,
            maxprec <= u32::MAX,
    ;
    if (maxprec as u64 + 1) * (size as u64) > maxbits as u64 + 1 {
        maxbits
    } else {
        u32::MAX
    }
}

/// Write `n` zero bits.
pub(crate) fn pad_zeros<S: ZfpBitStreamMutOps>(bs: &mut S, n: u32)
    requires
        old(bs).spec_state().wf(),
        has_room(old(bs).spec_state(), old(bs).spec_words(), n as int),
    ensures
        final(bs).spec_state().wf(),
        final(bs).spec_words().len() == old(bs).spec_words().len(),
        final(bs).spec_state().written(final(bs).spec_words()) == old(bs).spec_state().written(old(bs).spec_words())
            + zero_bits(n as nat),
{
    proof {
        assert(old(bs).spec_state().write_offset() == old(bs).spec_state().written(old(bs).spec_words()).len());
    }
    bs.pad(n as usize);
}

/// Read and drop `n` bits.
pub(crate) fn discard_bits<S: ZfpBitStreamOps>(bs: &mut S, n: u32)
    requires
        old(bs).spec_state().wf(),
    ensures
        final(bs).spec_state().wf(),
        final(bs).spec_words() == old(bs).spec_words(),
        forall|j: int| 0 <= j ==> #[trigger] final(bs).spec_state().pending(final(bs).spec_words(), j)
            == old(bs).spec_state().pending(old(bs).spec_words(), n + j),
        reads_within(old(bs).spec_words(), old(bs).spec_state(), n as int) ==> final(bs).spec_state().read_offset()
            == old(bs).spec_state().read_offset() + n,
{
    let ghost w = bs.spec_words();
    let ghost s0 = bs.spec_state();
    let mut left = n;
    while left > 0
        invariant
            bs.spec_state().wf(),
            bs.spec_words() == w,
            left <= n,
            forall|j: int| 0 <= j ==> #[trigger] bs.spec_state().pending(w, j) == s0.pending(w, (n - left) + j),
            reads_within(w, s0, n as int) ==> bs.spec_state().read_offset() == s0.read_offset() + (n - left),
        decreases left,
    {
        let m: u32 = if left > 64 { 64 } else { left };
        proof {
            if reads_within(w, s0, n as int) {
                lemma_reads_within(w, bs.spec_state(), left as int, m as int);
            }
        }
        let _ = bs.read_bits(m);
        left = left - m;
    }
}

/// The bits of a block of `i32` coded lossily: forward transform, coefficient
/// order, embedded coding within the budget, padded to `minbits`.
pub open spec fn lossy_int_bits_i32(x: Seq<i32>, d: nat, minbits: u32, maxbits: u32, maxprec: u32) -> Seq<bool> {
    let u = fwd_order_spec_i32(xform_spec_i32(x, d, LiftKind::Forward), d);
    pad_bits(emb_encode(u, 32, coded_budget(maxbits, maxprec, pow4n(d)), maxprec as int), minbits as int)
}

/// The block of `i32` and the bit count that lossy decoding reads from `src`.
pub open spec fn lossy_int_decode_i32(src: spec_fn(int) -> bool, d: nat, minbits: u32, maxbits: u32, maxprec: u32) -> (Seq<i32>, int) {
    let e = emb_decode(src, pow4n(d), 32, coded_budget(maxbits, maxprec, pow4n(d)), maxprec as int);
    (xform_spec_i32(inv_order_spec_i32(e.0, d), d, LiftKind::Inverse), if e.1 < minbits { minbits as int } else { e.1 })
}

/// Code a block of `4^d` values of `i32` lossily; return the bits written.
pub fn encode_int_block_i32<S: ZfpBitStreamMutOps>(bs: &mut S, iblock: &[i32], d: usize, minbits: u32, maxbits: u32, maxprec: u32) -> (r: usize)
    requires
        old(bs).spec_state().wf(),
        1 <= d <= 4,
        iblock@.len() == pow4n(d as nat),
        has_room(old(bs).spec_state(), old(bs).spec_words(),
            lossy_int_bits_i32(iblock@, d as nat, minbits, maxbits, maxprec).len() as int),
    ensures
        final(bs).spec_state().wf(),
        final(bs).spec_words().len() == old(bs).spec_words().len(),
        final(bs).spec_state().written(final(bs).spec_words()) == old(bs).spec_state().written(old(bs).spec_words())
            + lossy_int_bits_i32(iblock@, d as nat, minbits, maxbits, maxprec),
        r == lossy_int_bits_i32(iblock@, d as nat, minbits, maxbits, maxprec).len(),
        r <= (if minbits > 32832 {
            minbits as int
        } else {
            32832
        }),
{
    let mut block: Vec<i32> = Vec::new();
    let mut i: usize = 0;
    while i < iblock.len()
        invariant
            i <= iblock@.len(),
            block@ == iblock@.subrange(0, i as int),
        decreases iblock@.len() - i,
    {
        block.push(iblock[i]);
        i = i + 1;
    }
    proof {
        pow4_agrees(d as nat);
        assert(block@ =~= iblock@);
    }
    xform_block_i32(block.as_mut_slice(), d, LiftKind::Forward);
    let ublock = fwd_order_i32(block.as_slice(), d);
    let b = budget(maxbits, maxprec, ublock.len());
    let ghost e = emb_encode(ublock@, 32, b as int, maxprec as int);
    let ghost w0 = bs.spec_state().written(bs.spec_words());
    proof {
        assert(e.len() <= pad_bits(e, minbits as int).len());
    }
    let bits = encode_ints(bs, b, maxprec, 32, ublock.as_slice());
    if bits < minbits {
        proof {
            assert((w0 + e).len() == w0.len() + e.len());
        }
        pad_zeros(bs, minbits - bits);
        proof {
            assert(w0 + e + zero_bits((minbits - bits) as nat) =~= w0 + (e + zero_bits((minbits - bits) as nat)));
        }
        minbits as usize
    } else {
        bits as usize
    }
}

/// Decode a block of `4^d` values of `i32` coded lossily; return the bits read.
pub fn decode_int_block_i32<S: ZfpBitStreamOps>(
    bs: &mut S,
    iblock: &mut [i32],
    d: usize,
    minbits: u32,
    maxbits: u32,
    maxprec: u32,
    Ghost(src): Ghost<spec_fn(int) -> bool>,
) -> (r: usize)
    requires
        old(bs).spec_state().wf(),
        1 <= d <= 4,
        old(iblock)@.len() == pow4n(d as nat),
        forall|j: int| 0 <= j ==> #[trigger] old(bs).spec_state().pending(old(bs).spec_words(), j) == src(j),
    ensures
        ({
            let dec = lossy_int_decode_i32(src, d as nat, minbits, maxbits, maxprec);
            &&& final(iblock)@ == dec.0
            &&& r == dec.1
            &&& r <= (if minbits > 32832 {
                minbits as int
            } else {
                32832
            })
            &&& forall|j: int| 0 <= j ==> #[trigger] final(bs).spec_state().pending(final(bs).spec_words(), j) == src(r + j)
        }),
        final(bs).spec_state().wf(),
        final(bs).spec_words() == old(bs).spec_words(),
        final(iblock)@.len() == old(iblock)@.len(),
        reads_within(old(bs).spec_words(), old(bs).spec_state(), r as int) ==> final(bs).spec_state().read_offset()
            == old(bs).spec_state().read_offset() + r,
{
    let ghost w = bs.spec_words();
    let ghost s0 = bs.spec_state();
    let n = iblock.len();
    let mut ublock: Vec<u64> = Vec::new();
    let mut i: usize = 0;
    while i < n
        invariant
            i <= n,
            ublock@.len() == i,
        decreases n - i,
    {
        ublock.push(0);
        i = i + 1;
    }
    let b = budget(maxbits, maxprec, n);
    let bits = decode_ints(bs, b, maxprec, 32, ublock.as_mut_slice(), Ghost(src));
    proof {
        crate::codec::embedded::lemma_emb_len_bound(ublock@, 32, b as int, maxprec as int, src);
        let tot = lossy_int_decode_i32(src, d as nat, minbits, maxbits, maxprec).1;
        if reads_within(w, s0, tot) {
            lemma_reads_within(w, s0, tot, bits as int);
        }
    }
    let mut total = bits;
    if bits < minbits {
        discard_bits(bs, minbits - bits);
        total = minbits;
    }
    inv_order_i32(ublock.as_slice(), iblock, d);
    proof {
        pow4_agrees(d as nat);
    }
    xform_block_i32(iblock, d, LiftKind::Inverse);
    total as usize
}

/// The bits of a block of `i64` coded lossily: forward transform, coefficient
/// order, embedded coding within the budget, padded to `minbits`.
pub open spec fn lossy_int_bits_i64(x: Seq<i64>, d: nat, minbits: u32, maxbits: u32, maxprec: u32) -> Seq<bool> {
    let u = fwd_order_spec_i64(xform_spec_i64(x, d, LiftKind::Forward), d);
    pad_bits(emb_encode(u, 64, coded_budget(maxbits, maxprec, pow4n(d)), maxprec as int), minbits as int)
}

/// The block of `i64` and the bit count that lossy decoding reads from `src`.
pub open spec fn lossy_int_decode_i64(src: spec_fn(int) -> bool, d: nat, minbits: u32, maxbits: u32, maxprec: u32) -> (Seq<i64>, int) {
    let e = emb_decode(src, pow4n(d), 64, coded_budget(maxbits, maxprec, pow4n(d)), maxprec as int);
    (xform_spec_i64(inv_order_spec_i64(e.0, d), d, LiftKind::Inverse), if e.1 < minbits { minbits as int } else { e.1 })
}

/// Code a block of `4^d` values of `i64` lossily; return the bits written.
pub fn encode_int_block_i64<S: ZfpBitStreamMutOps>(bs: &mut S, iblock: &[i64], d: usize, minbits: u32, maxbits: u32, maxprec: u32) -> (r: usize)
    requires
        old(bs).spec_state().wf(),
        1 <= d <= 4,
        iblock@.len() == pow4n(d as nat),
        has_room(old(bs).spec_state(), old(bs).spec_words(),
            lossy_int_bits_i64(iblock@, d as nat, minbits, maxbits, maxprec).len() as int),
    ensures
        final(bs).spec_state().wf(),
        final(bs).spec_words().len() == old(bs).spec_words().len(),
        final(bs).spec_state().written(final(bs).spec_words()) == old(bs).spec_state().written(old(bs).spec_words())
            + lossy_int_bits_i64(iblock@, d as nat, minbits, maxbits, maxprec),
        r == lossy_int_bits_i64(iblock@, d as nat, minbits, maxbits, maxprec).len(),
        r <= (if minbits > 32832 {
            minbits as int
        } else {
            32832
        }),
{
    let mut block: Vec<i64> = Vec::new();
    let mut i: usize = 0;
    while i < iblock.len()
        invariant
            i <= iblock@.len(),
            block@ == iblock@.subrange(0, i as int),
        decreases iblock@.len() - i,
    {
        block.push(iblock[i]);
        i = i + 1;
    }
    proof {
        pow4_agrees(d as nat);
        assert(block@ =~= iblock@);
    }
    xform_block_i64(block.as_mut_slice(), d, LiftKind::Forward);
    let ublock = fwd_order_i64(block.as_slice(), d);
    let b = budget(maxbits, maxprec, ublock.len());
    let ghost e = emb_encode(ublock@, 64, b as int, maxprec as int);
    let ghost w0 = bs.spec_state().written(bs.spec_words());
    proof {
        assert(e.len() <= pad_bits(e, minbits as int).len());
    }
    let bits = encode_ints(bs, b, maxprec, 64, ublock.as_slice());
    if bits < minbits {
        proof {
            assert((w0 + e).len() == w0.len() + e.len());
        }
        pad_zeros(bs, minbits - bits);
        proof {
            assert(w0 + e + zero_bits((minbits - bits) as nat) =~= w0 + (e + zero_bits((minbits - bits) as nat)));
        }
        minbits as usize
    } else {
        bits as usize
    }
}

/// Decode a block of `4^d` values of `i64` coded lossily; return the bits read.
pub fn decode_int_block_i64<S: ZfpBitStreamOps>(
    bs: &mut S,
    iblock: &mut [i64],
    d: usize,
    minbits: u32,
    maxbits: u32,
    maxprec: u32,
    Ghost(src): Ghost<spec_fn(int) -> bool>,
) -> (r: usize)
    requires
        old(bs).spec_state().wf(),
        1 <= d <= 4,
        old(iblock)@.len() == pow4n(d as nat),
        forall|j: int| 0 <= j ==> #[trigger] old(bs).spec_state().pending(old(bs).spec_words(), j) == src(j),
    ensures
        ({
            let dec = lossy_int_decode_i64(src, d as nat, minbits, maxbits, maxprec);
            &&& final(iblock)@ == dec.0
            &&& r == dec.1
            &&& r <= (if minbits > 32832 {
                minbits as int
            } else {
                32832
            })
            &&& forall|j: int| 0 <= j ==> #[trigger] final(bs).spec_state().pending(final(bs).spec_words(), j) == src(r + j)
        }),
        final(bs).spec_state().wf(),
        final(bs).spec_words() == old(bs).spec_words(),
        final(iblock)@.len() == old(iblock)@.len(),
        reads_within(old(bs).spec_words(), old(bs).spec_state(), r as int) ==> final(bs).spec_state().read_offset()
            == old(bs).spec_state().read_offset() + r,
{
    let ghost w = bs.spec_words();
    let ghost s0 = bs.spec_state();
    let n = iblock.len();
    let mut ublock: Vec<u64> = Vec::new();
    let mut i: usize = 0;
    while i < n
        invariant
            i <= n,
            ublock@.len() == i,
        decreases n - i,
    {
        ublock.push(0);
        i = i + 1;
    }
    let b = budget(maxbits, maxprec, n);
    let bits = decode_ints(bs, b, maxprec, 64, ublock.as_mut_slice(), Ghost(src));
    proof {
        crate::codec::embedded::lemma_emb_len_bound(ublock@, 64, b as int, maxprec as int, src);
        let tot = lossy_int_decode_i64(src, d as nat, minbits, maxbits, maxprec).1;
        if reads_within(w, s0, tot) {
            lemma_reads_within(w, s0, tot, bits as int);
        }
    }
    let mut total = bits;
    if bits < minbits {
        discard_bits(bs, minbits - bits);
        total = minbits;
    }
    inv_order_i64(ublock.as_slice(), iblock, d);
    proof {
        pow4_agrees(d as nat);
    }
    xform_block_i64(iblock, d, LiftKind::Inverse);
    total as usize
}


/// The lowest plane from `p` up (below `ip`) in which some value of `u` has a
/// one, or `ip` when there is none.
pub open spec fn lowest_one(u: Seq<u64>, p: int, ip: int) -> int
    decreases ip - p,
{
    if p >= ip {
        ip
    } else if crate::codec::embedded::ones_from(u, p, 0) > 0 {
        p
    } else {
        lowest_one(u, p + 1, ip)
    }
}

/// The planes a reversible block codes: from the top down to the lowest
/// plane that holds a one, and at least one.
pub open spec fn rev_prec(u: Seq<u64>, ip: int) -> int {
    let l = lowest_one(u, 0, ip);
    if ip - l < 1 {
        1
    } else {
        ip - l
    }
}

/// A word read as `n` bits (`n < 63`) with nothing above them is the value of those bits.
pub proof fn lemma_read_value(src: spec_fn(int) -> bool, pos: int, v: u64, n: nat)
    requires
        n < 63,
        forall|j: int| 0 <= j < n ==> src(pos + j) == plane_bit(v, j),
        v >> (n as u64) == 0,
    ensures
        bits_value(src, pos, n) == v,
{
    bits_value_of_word(src, pos, v, n);
    accumulate_step(v, n as u64);
}

/// The value of the `n` bits of `src` from position `pos`, least significant first.
pub open spec fn bits_value(src: spec_fn(int) -> bool, pos: int, n: nat) -> u64
    decreases n,
{
    if n == 0 {
        0
    } else {
        bits_value(src, pos, (n - 1) as nat) | (if src(pos + n - 1) {
            1u64 << ((n - 1) as u64)
        } else {
            0u64
        })
    }
}

/// The number of planes of `u` to code reversibly.
fn rev_precision(u: &[u64], ip: u32) -> (r: u32)
    requires
        ip == 32 || ip == 64,
        1 <= u@.len() <= 256,
    ensures
        r == rev_prec(u@, ip as int),
        1 <= r <= ip,
{
    let mut p: u32 = 0;
    let mut found = false;
    while p < ip && !found
        invariant
            p <= ip,
            ip == 32 || ip == 64,
            1 <= u@.len() <= 256,
            lowest_one(u@, p as int, ip as int) == lowest_one(u@, 0, ip as int),
            found ==> p < ip && lowest_one(u@, p as int, ip as int) == p,
        decreases ip - p, (if found { 0int } else { 1 }),
    {
        if count_ones_at(u, p) > 0 {
            found = true;
        } else {
            p = p + 1;
        }
    }
    if ip - p < 1 {
        1
    } else {
        ip - p
    }
}

fn count_ones_at(u: &[u64], p: u32) -> (c: u32)
    requires
        u@.len() <= 256,
        p < 64,
    ensures
        c == crate::codec::embedded::ones_from(u@, p as int, 0),
{
    crate::codec::embedded::count_ones(u, p, 0)
}

/// Read `n` bits one by one, least significant first.
pub(crate) fn read_value<S: ZfpBitStreamOps>(bs: &mut S, n: u32, Ghost(src): Ghost<spec_fn(int) -> bool>) -> (r: u64)
    requires
        old(bs).spec_state().wf(),
        n <= 64,
        forall|j: int| 0 <= j ==> #[trigger] old(bs).spec_state().pending(old(bs).spec_words(), j) == src(j),
    ensures
        r == bits_value(src, 0, n as nat),
        forall|j: int| 0 <= j ==> #[trigger] final(bs).spec_state().pending(final(bs).spec_words(), j) == src(n + j),
        final(bs).spec_state().wf(),
        final(bs).spec_words() == old(bs).spec_words(),
        reads_within(old(bs).spec_words(), old(bs).spec_state(), n as int) ==> final(bs).spec_state().read_offset()
            == old(bs).spec_state().read_offset() + n,
{
    let ghost w = bs.spec_words();
    let ghost s0 = bs.spec_state();
    let mut v: u64 = 0;
    let mut j: u32 = 0;
    while j < n
        invariant
            j <= n <= 64,
            bs.spec_state().wf(),
            bs.spec_words() == w,
            v == bits_value(src, 0, j as nat),
            forall|t: int| 0 <= t ==> #[trigger] bs.spec_state().pending(w, t) == src(j + t),
            reads_within(w, s0, n as int) ==> bs.spec_state().read_offset() == s0.read_offset() + j,
        decreases n - j,
    {
        proof {
            if reads_within(w, s0, n as int) {
                lemma_reads_within(w, bs.spec_state(), (n - j) as int, 1);
            }
        }
        let b = bs.read_bit();
        if b == 1 {
            v = v | (1u64 << j as u64);
        } else {
            v = v | 0u64;
        }
        j = j + 1;
    }
    v
}

/// The bits of a block of `i32` coded reversibly: reversible transform,
/// coefficient order, the plane count less one in 5 bits, then the planes
/// down to the lowest that holds a one.
pub open spec fn rev_int_bits_i32(x: Seq<i32>, d: nat, maxbits: u32) -> Seq<bool> {
    let u = fwd_order_spec_i32(xform_spec_i32(x, d, LiftKind::ReversibleForward), d);
    let p = rev_prec(u, 32);
    low_bits((p - 1) as u64, 5) + emb_encode(u, 32, coded_budget(sat_sub(maxbits, 5), p as u32, pow4n(d)), p)
}

/// The block of `i32` and the bit count that reversible decoding reads from `src`.
pub open spec fn rev_int_decode_i32(src: spec_fn(int) -> bool, d: nat, maxbits: u32) -> (Seq<i32>, int) {
    let p = bits_value(src, 0, 5) + 1;
    let rest = |j: int| src(5 + j);
    let e = emb_decode(rest, pow4n(d), 32, coded_budget(sat_sub(maxbits, 5), p as u32, pow4n(d)), p as int);
    (xform_spec_i32(inv_order_spec_i32(e.0, d), d, LiftKind::ReversibleInverse), 5 + e.1)
}

/// Code a block of `4^d` values of `i32` reversibly; return the bits written.
pub fn encode_rev_int_block_i32<S: ZfpBitStreamMutOps>(bs: &mut S, iblock: &[i32], d: usize, maxbits: u32) -> (r: usize)
    requires
        old(bs).spec_state().wf(),
        1 <= d <= 4,
        iblock@.len() == pow4n(d as nat),
        has_room(old(bs).spec_state(), old(bs).spec_words(), rev_int_bits_i32(iblock@, d as nat, maxbits).len() as int),
    ensures
        final(bs).spec_state().wf(),
        final(bs).spec_words().len() == old(bs).spec_words().len(),
        final(bs).spec_state().written(final(bs).spec_words()) == old(bs).spec_state().written(old(bs).spec_words())
            + rev_int_bits_i32(iblock@, d as nat, maxbits),
        r == rev_int_bits_i32(iblock@, d as nat, maxbits).len(),
        r <= 32832 + 5,
{
    let mut block: Vec<i32> = Vec::new();
    let mut i: usize = 0;
    while i < iblock.len()
        invariant
            i <= iblock@.len(),
            block@ == iblock@.subrange(0, i as int),
        decreases iblock@.len() - i,
    {
        block.push(iblock[i]);
        i = i + 1;
    }
    proof {
        pow4_agrees(d as nat);
        assert(block@ =~= iblock@);
    }
    xform_block_i32(block.as_mut_slice(), d, LiftKind::ReversibleForward);
    let ublock = fwd_order_i32(block.as_slice(), d);
    let prec = rev_precision(ublock.as_slice(), 32);
    let ghost w0 = bs.spec_state().written(bs.spec_words());
    let ghost total = rev_int_bits_i32(iblock@, d as nat, maxbits);
    proof {
        assert(w0.len() == bs.spec_state().write_offset());
        assert(total.len() >= 5);
    }
    bs.write_bits((prec - 1) as u64, 5);
    let b = budget(if maxbits >= 5 { maxbits - 5 } else { 0 }, prec, ublock.len());
    let ghost e = emb_encode(ublock@, 32, b as int, prec as int);
    proof {
        assert(total == low_bits((prec - 1) as u64, 5) + e);
        assert(bs.spec_state().write_offset() == bs.spec_state().written(bs.spec_words()).len());
    }
    let bits = encode_ints(bs, b, prec, 32, ublock.as_slice());
    proof {
        assert(w0 + low_bits((prec - 1) as u64, 5) + e =~= w0 + total);
    }
    5 + bits as usize
}

/// Decode a block of `4^d` values of `i32` coded reversibly; return the bits read.
pub fn decode_rev_int_block_i32<S: ZfpBitStreamOps>(
    bs: &mut S,
    iblock: &mut [i32],
    d: usize,
    maxbits: u32,
    Ghost(src): Ghost<spec_fn(int) -> bool>,
) -> (r: usize)
    requires
        old(bs).spec_state().wf(),
        1 <= d <= 4,
        old(iblock)@.len() == pow4n(d as nat),
        forall|j: int| 0 <= j ==> #[trigger] old(bs).spec_state().pending(old(bs).spec_words(), j) == src(j),
    ensures
        ({
            let dec = rev_int_decode_i32(src, d as nat, maxbits);
            &&& final(iblock)@ == dec.0
            &&& r == dec.1
            &&& r <= 32832 + 5
            &&& forall|j: int| 0 <= j ==> #[trigger] final(bs).spec_state().pending(final(bs).spec_words(), j) == src(r + j)
        }),
        final(bs).spec_state().wf(),
        final(bs).spec_words() == old(bs).spec_words(),
        final(iblock)@.len() == old(iblock)@.len(),
        reads_within(old(bs).spec_words(), old(bs).spec_state(), r as int) ==> final(bs).spec_state().read_offset()
            == old(bs).spec_state().read_offset() + r,
{
    let ghost w = bs.spec_words();
    let ghost s0 = bs.spec_state();
    let n = iblock.len();
    let v = read_value(bs, 5, Ghost(src));
    let ghost s1 = bs.spec_state();
    proof {
        bits_value_bound(src, 0, 5);
        or_bound(0, 0);
    }
    let prec = (v + 1) as u32;
    let mut ublock: Vec<u64> = Vec::new();
    let mut i: usize = 0;
    while i < n
        invariant
            i <= n,
            ublock@.len() == i,
        decreases n - i,
    {
        ublock.push(0);
        i = i + 1;
    }
    let b = budget(if maxbits >= 5 { maxbits - 5 } else { 0 }, prec, n);
    let ghost rest = |j: int| src(5 + j);
    let bits = decode_ints(bs, b, prec, 32, ublock.as_mut_slice(), Ghost(rest));
    proof {
        crate::codec::embedded::lemma_emb_len_bound(ublock@, 32, b as int, prec as int, rest);
        if reads_within(w, s0, 5 + bits) {
            lemma_reads_within(w, s0, 5 + bits, 5);
            assert(reads_within(w, s1, bits as int));
        }
    }
    inv_order_i32(ublock.as_slice(), iblock, d);
    proof {
        pow4_agrees(d as nat);
    }
    xform_block_i32(iblock, d, LiftKind::ReversibleInverse);
    5 + bits as usize
}

/// The bits of a block of `i64` coded reversibly: reversible transform,
/// coefficient order, the plane count less one in 6 bits, then the planes
/// down to the lowest that holds a one.
pub open spec fn rev_int_bits_i64(x: Seq<i64>, d: nat, maxbits: u32) -> Seq<bool> {
    let u = fwd_order_spec_i64(xform_spec_i64(x, d, LiftKind::ReversibleForward), d);
    let p = rev_prec(u, 64);
    low_bits((p - 1) as u64, 6) + emb_encode(u, 64, coded_budget(sat_sub(maxbits, 6), p as u32, pow4n(d)), p)
}

/// The block of `i64` and the bit count that reversible decoding reads from `src`.
pub open spec fn rev_int_decode_i64(src: spec_fn(int) -> bool, d: nat, maxbits: u32) -> (Seq<i64>, int) {
    let p = bits_value(src, 0, 6) + 1;
    let rest = |j: int| src(6 + j);
    let e = emb_decode(rest, pow4n(d), 64, coded_budget(sat_sub(maxbits, 6), p as u32, pow4n(d)), p as int);
    (xform_spec_i64(inv_order_spec_i64(e.0, d), d, LiftKind::ReversibleInverse), 6 + e.1)
}

/// Code a block of `4^d` values of `i64` reversibly; return the bits written.
pub fn encode_rev_int_block_i64<S: ZfpBitStreamMutOps>(bs: &mut S, iblock: &[i64], d: usize, maxbits: u32) -> (r: usize)
    requires
        old(bs).spec_state().wf(),
        1 <= d <= 4,
        iblock@.len() == pow4n(d as nat),
        has_room(old(bs).spec_state(), old(bs).spec_words(), rev_int_bits_i64(iblock@, d as nat, maxbits).len() as int),
    ensures
        final(bs).spec_state().wf(),
        final(bs).spec_words().len() == old(bs).spec_words().len(),
        final(bs).spec_state().written(final(bs).spec_words()) == old(bs).spec_state().written(old(bs).spec_words())
            + rev_int_bits_i64(iblock@, d as nat, maxbits),
        r == rev_int_bits_i64(iblock@, d as nat, maxbits).len(),
        r <= 32832 + 6,
{
    let mut block: Vec<i64> = Vec::new();
    let mut i: usize = 0;
    while i < iblock.len()
        invariant
            i <= iblock@.len(),
            block@ == iblock@.subrange(0, i as int),
        decreases iblock@.len() - i,
    {
        block.push(iblock[i]);
        i = i + 1;
    }
    proof {
        pow4_agrees(d as nat);
        assert(block@ =~= iblock@);
    }
    xform_block_i64(block.as_mut_slice(), d, LiftKind::ReversibleForward);
    let ublock = fwd_order_i64(block.as_slice(), d);
    let prec = rev_precision(ublock.as_slice(), 64);
    let ghost w0 = bs.spec_state().written(bs.spec_words());
    let ghost total = rev_int_bits_i64(iblock@, d as nat, maxbits);
    proof {
        assert(w0.len() == bs.spec_state().write_offset());
        assert(total.len() >= 6);
    }
    bs.write_bits((prec - 1) as u64, 6);
    let b = budget(if maxbits >= 6 { maxbits - 6 } else { 0 }, prec, ublock.len());
    let ghost e = emb_encode(ublock@, 64, b as int, prec as int);
    proof {
        assert(total == low_bits((prec - 1) as u64, 6) + e);
        assert(bs.spec_state().write_offset() == bs.spec_state().written(bs.spec_words()).len());
    }
    let bits = encode_ints(bs, b, prec, 64, ublock.as_slice());
    proof {
        assert(w0 + low_bits((prec - 1) as u64, 6) + e =~= w0 + total);
    }
    6 + bits as usize
}

/// Decode a block of `4^d` values of `i64` coded reversibly; return the bits read.
pub fn decode_rev_int_block_i64<S: ZfpBitStreamOps>(
    bs: &mut S,
    iblock: &mut [i64],
    d: usize,
    maxbits: u32,
    Ghost(src): Ghost<spec_fn(int) -> bool>,
) -> (r: usize)
    requires
        old(bs).spec_state().wf(),
        1 <= d <= 4,
        old(iblock)@.len() == pow4n(d as nat),
        forall|j: int| 0 <= j ==> #[trigger] old(bs).spec_state().pending(old(bs).spec_words(), j) == src(j),
    ensures
        ({
            let dec = rev_int_decode_i64(src, d as nat, maxbits);
            &&& final(iblock)@ == dec.0
            &&& r == dec.1
            &&& r <= 32832 + 6
            &&& forall|j: int| 0 <= j ==> #[trigger] final(bs).spec_state().pending(final(bs).spec_words(), j) == src(r + j)
        }),
        final(bs).spec_state().wf(),
        final(bs).spec_words() == old(bs).spec_words(),
        final(iblock)@.len() == old(iblock)@.len(),
        reads_within(old(bs).spec_words(), old(bs).spec_state(), r as int) ==> final(bs).spec_state().read_offset()
            == old(bs).spec_state().read_offset() + r,
{
    let ghost w = bs.spec_words();
    let ghost s0 = bs.spec_state();
    let n = iblock.len();
    let v = read_value(bs, 6, Ghost(src));
    let ghost s1 = bs.spec_state();
    proof {
        bits_value_bound(src, 0, 6);
        or_bound(0, 0);
    }
    let prec = (v + 1) as u32;
    let mut ublock: Vec<u64> = Vec::new();
    let mut i: usize = 0;
    while i < n
        invariant
            i <= n,
            ublock@.len() == i,
        decreases n - i,
    {
        ublock.push(0);
        i = i + 1;
    }
    let b = budget(if maxbits >= 6 { maxbits - 6 } else { 0 }, prec, n);
    let ghost rest = |j: int| src(6 + j);
    let bits = decode_ints(bs, b, prec, 64, ublock.as_mut_slice(), Ghost(rest));
    proof {
        crate::codec::embedded::lemma_emb_len_bound(ublock@, 64, b as int, prec as int, rest);
        if reads_within(w, s0, 6 + bits) {
            lemma_reads_within(w, s0, 6 + bits, 6);
            assert(reads_within(w, s1, bits as int));
        }
    }
    inv_order_i64(ublock.as_slice(), iblock, d);
    proof {
        pow4_agrees(d as nat);
    }
    xform_block_i64(iblock, d, LiftKind::ReversibleInverse);
    6 + bits as usize
}

proof fn or_bound(a: u64, m: u64)
    by (bit_vector)
    requires
        a < (1u64 << m) || a == 0,
        m < 16,
    ensures
        (1u64 << 0u64) == 1u64,
        (1u64 << 5u64) == 32u64,
        (1u64 << 6u64) == 64u64,
        (a | 0u64) < (1u64 << (m + 1)),
        (a | (1u64 << m)) < (1u64 << (m + 1)),
{
}

pub(crate) proof fn bits_value_bound(src: spec_fn(int) -> bool, pos: int, n: nat)
    requires
        n <= 16,
    ensures
        bits_value(src, pos, n) < (1u64 << (n as u64)),
    decreases n,
{
    if n > 0 {
        bits_value_bound(src, pos, (n - 1) as nat);
        let a = bits_value(src, pos, (n - 1) as nat);
        let m = (n - 1) as u64;
        assert(n as u64 == m + 1);
        or_bound(a, m);
    } else {
        or_bound(0, 0);
    }
}


proof fn shr_step(a: u64, q: u64)
    by (bit_vector)
    requires
        1 <= q < 64,
    ensures
        a >> ((q - 1) as u64) == ((a >> q) << 1u64) | ((a >> ((q - 1) as u64)) & 1u64),
        a >> 63u64 == (a >> 63u64) & 1u64,
        (a >> ((q - 1) as u64)) & 1u64 <= 1u64,
        (a >> 63u64) & 1u64 <= 1u64,
{
}

proof fn bits_ext_from(a: u64, b: u64, q: u64)
    requires
        q < 64,
        forall|p: int| 0 <= p < 64 ==> #[trigger] plane_bit(a, p) == plane_bit(b, p),
    ensures
        a >> q == b >> q,
    decreases 64 - q,
{
    if q == 63 {
        shr_step(a, 1);
        shr_step(b, 1);
        assert(plane_bit(a, 63) == plane_bit(b, 63));
    } else {
        bits_ext_from(a, b, (q + 1) as u64);
        shr_step(a, (q + 1) as u64);
        shr_step(b, (q + 1) as u64);
        assert(plane_bit(a, q as int) == plane_bit(b, q as int));
    }
}

/// Two words with the same 64 bits are equal.
pub(crate) proof fn bits_ext(a: u64, b: u64)
    requires
        forall|p: int| 0 <= p < 64 ==> #[trigger] plane_bit(a, p) == plane_bit(b, p),
    ensures
        a == b,
{
    bits_ext_from(a, b, 0);
    assert(a >> 0u64 == a && b >> 0u64 == b) by (bit_vector);
}

pub(crate) proof fn high_bits_zero(c: u32, q: u64)
    requires
        32 <= q < 64,
    ensures
        !plane_bit(c as u64, q as int),
{
    assert(!(((c as u64) >> q) & 1u64 == 1u64)) by (bit_vector)
        requires
            32 <= q < 64,
    ;
}

/// The mask of the low `m` bits.
pub open spec fn low_mask(m: u64) -> u64 {
    ((1u64 << m) - 1u64) as u64
}

proof fn accumulate_step(v: u64, m: u64)
    by (bit_vector)
    requires
        m < 63,
    ensures
        (v & low_mask(m)) | (if (v >> m) & 1u64 == 1u64 { 1u64 << m } else { 0u64 }) == v & low_mask((m + 1) as u64),
        v < 64 ==> v & low_mask(6) == v,
        v < 32 ==> v & low_mask(5) == v,
        v & low_mask(0) == 0u64,
        v >> m == 0 ==> v & low_mask(m) == v,
{
}

pub proof fn bits_value_of_word(src: spec_fn(int) -> bool, pos: int, v: u64, n: nat)
    requires
        n <= 63,
        forall|j: int| 0 <= j < n ==> src(pos + j) == plane_bit(v, j),
    ensures
        bits_value(src, pos, n) == v & low_mask(n as u64),
    decreases n,
{
    if n == 0 {
        accumulate_step(v, 0);
    } else {
        bits_value_of_word(src, pos, v, (n - 1) as nat);
        let m = (n - 1) as u64;
        accumulate_step(v, m);
        assert(src(pos + (n - 1)) == plane_bit(v, (n - 1) as int));
        assert(n as u64 == m + 1);
    }
}

proof fn lowest_one_below(u: Seq<u64>, p0: int, ip: int, q: int)
    requires
        0 <= p0 <= q < lowest_one(u, p0, ip),
        q < ip,
    ensures
        crate::codec::embedded::ones_from(u, q, 0) == 0,
    decreases ip - p0,
{
    crate::codec::embedded::ones_from_zero(u, p0, 0);
    if crate::codec::embedded::ones_from(u, p0, 0) > 0 {
        assert(lowest_one(u, p0, ip) == p0);
    } else if p0 < q {
        lowest_one_below(u, p0 + 1, ip, q);
    }
}

proof fn lowest_one_range(u: Seq<u64>, p0: int, ip: int)
    requires
        0 <= p0 <= ip,
    ensures
        p0 <= lowest_one(u, p0, ip) <= ip,
    decreases ip - p0,
{
    if p0 < ip && !(crate::codec::embedded::ones_from(u, p0, 0) > 0) {
        lowest_one_range(u, p0 + 1, ip);
    }
}

/// Reversible coding of a block of `i32` is lossless: decoding the bits that
/// coding wrote gives back the block, and reads exactly those bits.
pub proof fn lemma_rev_int_block_roundtrip_i32(x: Seq<i32>, d: nat, maxbits: u32, src: spec_fn(int) -> bool)
    requires
        1 <= d <= 4,
        maxbits >= 65 * 256 + 5,
        x.len() == pow4n(d),
        forall|t: int| 0 <= t < rev_int_bits_i32(x, d, maxbits).len() ==> src(t) == #[trigger] rev_int_bits_i32(x, d, maxbits)[t],
    ensures
        rev_int_decode_i32(src, d, maxbits) == (x, rev_int_bits_i32(x, d, maxbits).len() as int),
{
    pow4_agrees(d);
    let y = xform_spec_i32(x, d, LiftKind::ReversibleForward);
    crate::codec::transform::lemma_rev_xform_roundtrip_i32(x, d);
    assert(y.len() == x.len()) by {
        reveal_with_fuel(crate::codec::transform::axes_up_i32, 5);
    }
    let u = fwd_order_spec_i32(y, d);
    let p = rev_prec(u, 32);
    lowest_one_range(u, 0, 32);
    let hdr = low_bits((p - 1) as u64, 5);
    let budget_e = coded_budget(sat_sub(maxbits, 5), p as u32, pow4n(d));
    assert((p + 1) * pow4n(d) <= 65 * 256) by (nonlinear_arith)
        requires
            1 <= p <= 64,
            pow4n(d) <= 256,
    ;
    let e = emb_encode(u, 32, budget_e, p);
    let all = rev_int_bits_i32(x, d, maxbits);
    assert(all == hdr + e);
    assert forall|j: int| 0 <= j < 5 implies #[trigger] src(0 + j) == plane_bit((p - 1) as u64, j) by {
        assert(src(j) == all[j]);
    }
    bits_value_of_word(src, 0, (p - 1) as u64, 5);
    accumulate_step((p - 1) as u64, 0);
    let pv = bits_value(src, 0, 5) + 1;
    assert(pv == p);
    let rest = |j: int| src(5 + j);
    assert forall|t: int| 0 <= t < e.len() implies #[trigger] rest(t) == e[t] by {
        assert(src(5 + t) == all[5 + t]);
    }
    crate::codec::embedded::lemma_emb_len_bound(u, 32, budget_e, p, rest);
    crate::codec::embedded::lemma_emb_roundtrip(u, 32, budget_e, p, rest);
    let dec = emb_decode(rest, pow4n(d), 32, budget_e, p);
    crate::codec::embedded::lemma_dec_planes_len(rest, Seq::new(pow4n(d) as nat, |j: int| 0u64), 32,
        crate::codec::embedded::lowest_plane(32, p), 0, budget_e, 0);
    let kmin = crate::codec::embedded::lowest_plane(32, p);
    assert forall|j: int| 0 <= j < u.len() implies #[trigger] dec.0[j] == u[j] by {
        assert forall|q: int| 0 <= q < 64 implies #[trigger] plane_bit(dec.0[j], q) == plane_bit(u[j], q) by {
            if q < kmin {
                lowest_one_below(u, 0, 32, q);
                crate::codec::embedded::ones_from_zero(u, q, 0);
                assert(!crate::codec::embedded::ones_set(u, q, 0).contains(j));
            }
            if q >= 32 {
                high_bits_zero(crate::codec::order::int2uint_spec_i32(y[crate::codec::order::perm(d)[j] as int]), q as u64);
            }
        }
        bits_ext(dec.0[j], u[j]);
    }
    assert(dec.0 =~= u);
    crate::codec::order::lemma_order_roundtrip(
        y,
        Seq::new(pow4n(d) as nat, |j: int| 0i64),
        d,
    );
}

/// Reversible coding of a block of `i64` is lossless: decoding the bits that
/// coding wrote gives back the block, and reads exactly those bits.
pub proof fn lemma_rev_int_block_roundtrip_i64(x: Seq<i64>, d: nat, maxbits: u32, src: spec_fn(int) -> bool)
    requires
        1 <= d <= 4,
        maxbits >= 65 * 256 + 6,
        x.len() == pow4n(d),
        forall|t: int| 0 <= t < rev_int_bits_i64(x, d, maxbits).len() ==> src(t) == #[trigger] rev_int_bits_i64(x, d, maxbits)[t],
    ensures
        rev_int_decode_i64(src, d, maxbits) == (x, rev_int_bits_i64(x, d, maxbits).len() as int),
{
    pow4_agrees(d);
    let y = xform_spec_i64(x, d, LiftKind::ReversibleForward);
    crate::codec::transform::lemma_rev_xform_roundtrip_i64(x, d);
    assert(y.len() == x.len()) by {
        reveal_with_fuel(crate::codec::transform::axes_up_i64, 5);
    }
    let u = fwd_order_spec_i64(y, d);
    let p = rev_prec(u, 64);
    lowest_one_range(u, 0, 64);
    let hdr = low_bits((p - 1) as u64, 6);
    let budget_e = coded_budget(sat_sub(maxbits, 6), p as u32, pow4n(d));
    assert((p + 1) * pow4n(d) <= 65 * 256) by (nonlinear_arith)
        requires
            1 <= p <= 64,
            pow4n(d) <= 256,
    ;
    let e = emb_encode(u, 64, budget_e, p);
    let all = rev_int_bits_i64(x, d, maxbits);
    assert(all == hdr + e);
    assert forall|j: int| 0 <= j < 6 implies #[trigger] src(0 + j) == plane_bit((p - 1) as u64, j) by {
        assert(src(j) == all[j]);
    }
    bits_value_of_word(src, 0, (p - 1) as u64, 6);
    accumulate_step((p - 1) as u64, 0);
    let pv = bits_value(src, 0, 6) + 1;
    assert(pv == p);
    let rest = |j: int| src(6 + j);
    assert forall|t: int| 0 <= t < e.len() implies #[trigger] rest(t) == e[t] by {
        assert(src(6 + t) == all[6 + t]);
    }
    crate::codec::embedded::lemma_emb_len_bound(u, 64, budget_e, p, rest);
    crate::codec::embedded::lemma_emb_roundtrip(u, 64, budget_e, p, rest);
    let dec = emb_decode(rest, pow4n(d), 64, budget_e, p);
    crate::codec::embedded::lemma_dec_planes_len(rest, Seq::new(pow4n(d) as nat, |j: int| 0u64), 64,
        crate::codec::embedded::lowest_plane(64, p), 0, budget_e, 0);
    let kmin = crate::codec::embedded::lowest_plane(64, p);
    assert forall|j: int| 0 <= j < u.len() implies #[trigger] dec.0[j] == u[j] by {
        assert forall|q: int| 0 <= q < 64 implies #[trigger] plane_bit(dec.0[j], q) == plane_bit(u[j], q) by {
            if q < kmin {
                lowest_one_below(u, 0, 64, q);
                crate::codec::embedded::ones_from_zero(u, q, 0);
                assert(!crate::codec::embedded::ones_set(u, q, 0).contains(j));
            }
        }
        bits_ext(dec.0[j], u[j]);
    }
    assert(dec.0 =~= u);
    crate::codec::order::lemma_order_roundtrip(
        Seq::new(pow4n(d) as nat, |j: int| 0i32),
        y,
        d,
    );
}

} // verus!
