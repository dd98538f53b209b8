//! Blocks of IEEE-754 values, handled through their bit patterns.
//!
//! A value of a block is its raw bit pattern (32 bits for single, 64 bits for
//! double precision). The block-floating-point cast, the nearest-value
//! rounding of an integer scaled by a power of two, and the largest exponent of
//! a block are computed exactly on those patterns, with round-to-nearest-even
//! as the hardware does it.

use vstd::prelude::*;
use vstd::arithmetic::power2::{lemma2_to64, lemma_pow2_adds, lemma_pow2_pos, lemma_pow2_strictly_increases, lemma_pow2_unfold, pow2};
use crate::bitstream::ops::{ZfpBitStreamMutOps, ZfpBitStreamOps};
use crate::bitstream::stream_core::{has_room, lemma_reads_within, low_bits, reads_within, zero_bits};
use crate::codec::block::{
    bits_value, bits_value_bound, decode_int_block_i32, decode_int_block_i64, decode_rev_int_block_i32,
    decode_rev_int_block_i64, discard_bits, encode_int_block_i32, encode_int_block_i64, encode_rev_int_block_i32,
    encode_rev_int_block_i64, lossy_int_bits_i32, lossy_int_bits_i64, lossy_int_decode_i32, lossy_int_decode_i64,
    pad_bits, pad_zeros, read_value, rev_int_bits_i32, rev_int_bits_i64, rev_int_decode_i32, rev_int_decode_i64,
    sat_sub,
};
use crate::codec::order::pow4n;

verus! {

/// The number of binary digits of `n` (zero for zero).
pub open spec fn bit_len(n: nat) -> nat
    decreases n,
{
    if n == 0 {
        0
    } else {
        1 + bit_len(n / 2)
    }
}

/// `n / 2^s` rounded to the nearest integer, ties to even.
pub open spec fn rne_shift(n: nat, s: nat) -> nat {
    if s == 0 {
        n
    } else {
        let f = n / pow2(s);
        let r = n % pow2(s);
        let h = pow2((s - 1) as nat);
        if r > h || (r == h && f % 2 == 1) {
            f + 1
        } else {
            f
        }
    }
}

/// The magnitude bits of the value nearest to `n * 2^e`, ties to even, in a
/// format with `p` fraction bits, exponent bias `bias` and all-ones exponent
/// field `emaxraw`: subnormal below the least normal exponent, infinite
/// where the rounded value reaches the all-ones exponent.
pub open spec fn round_bits(n: nat, e: int, p: nat, bias: int, emaxraw: int) -> int {
    if n == 0 {
        0
    } else {
        let lead = bit_len(n) - 1 + e;
        let q = if lead + bias >= 1 {
            lead - p
        } else {
            1 - bias - p
        };
        let m = if q <= e {
            (n * pow2((e - q) as nat)) as int
        } else {
            rne_shift(n, (q - e) as nat) as int
        };
        let b = (q + p + bias - 1) * pow2(p) + m;
        if b >= emaxraw * pow2(p) {
            emaxraw * pow2(p)
        } else {
            b
        }
    }
}

proof fn lemma_bit_len(n: nat)
    ensures
        n < pow2(bit_len(n)),
        n > 0 ==> pow2((bit_len(n) - 1) as nat) <= n,
    decreases n,
{
    if n == 0 {
        lemma2_to64();
    } else {
        lemma_bit_len(n / 2);
        let b = bit_len(n / 2);
        lemma_pow2_unfold(b + 1);
        if n / 2 > 0 {
            lemma_pow2_unfold(b);
        } else {
            lemma2_to64();
        }
    }
}

/// The bits of `n` below 2^64 number at most 64.
proof fn lemma_bit_len_64(n: nat)
    requires
        n < 0x1_0000_0000_0000_0000,
    ensures
        bit_len(n) <= 64,
{
    lemma_bit_len(n);
    if bit_len(n) > 64 {
        lemma2_to64();
        lemma_pow2_strictly_increases(64, (bit_len(n) - 1) as nat);
        assert(pow2(64) == 0x1_0000_0000_0000_0000) by {
            lemma2_to64();
            lemma_pow2_adds(32, 32);
        }
    }
}

fn bit_len_exec(n: u64) -> (r: u32)
    ensures
        r == bit_len(n as nat),
        r <= 64,
{
    proof {
        lemma_bit_len_64(n as nat);
    }
    let mut m: u64 = n;
    let mut c: u32 = 0;
    while m > 0
        invariant
            c + bit_len(m as nat) == bit_len(n as nat),
            bit_len(n as nat) <= 64,
        decreases m,
    {
        m = m / 2;
        c = c + 1;
    }
    c
}

/// `2^s` for `s < 64`.
fn pow2_exec(s: u32) -> (r: u64)
    requires
        s < 64,
    ensures
        r == pow2(s as nat),
{
    proof {
        vstd::bits::lemma_u64_pow2_no_overflow(s as nat);
        vstd::bits::lemma_u64_shl_is_mul(1, s as u64);
    }
    1u64 << (s as u64)
}

proof fn lemma_pow2_64()
    ensures
        pow2(63) == 0x8000_0000_0000_0000,
        pow2(64) == 0x1_0000_0000_0000_0000,
{
    lemma2_to64();
    lemma_pow2_adds(32, 31);
    lemma_pow2_adds(32, 32);
}

fn rne_shift_exec(n: u64, s: u32) -> (r: u64)
    requires
        n <= 0x8000_0000_0000_0000,
    ensures
        r == rne_shift(n as nat, s as nat),
        s > 0 ==> r as int * pow2(s as nat) <= n + pow2((s - 1) as nat),
{
    if s == 0 {
        return n;
    }
    if s >= 64 {
        proof {
            lemma_pow2_64();
            if s > 64 {
                lemma_pow2_strictly_increases(64, s as nat);
                lemma_pow2_strictly_increases(63, (s - 1) as nat);
            }
            vstd::arithmetic::div_mod::lemma_basic_div(n as int, pow2(s as nat) as int);
            vstd::arithmetic::div_mod::lemma_small_mod(n as nat, pow2(s as nat));
        }
        return 0;
    }
    let pw = pow2_exec(s);
    let h = pow2_exec(s - 1);
    proof {
        lemma_pow2_unfold(s as nat);
        lemma_pow2_pos(s as nat);
    }
    let f = n / pw;
    let r = n % pw;
    proof {
        assert(f * pw + r == n) by (nonlinear_arith)
            requires
                pw > 0,
                f == n / pw,
                r == n % pw,
        ;
    }
    if r > h || (r == h && f % 2 == 1) {
        proof {
            assert((f + 1) * pw == f * pw + pw) by (nonlinear_arith);
        }
        f + 1
    } else {
        f
    }
}


proof fn lemma_div_pow2_range(n: nat, l: nat, s: nat)
    requires
        n < pow2(l),
        s <= l,
    ensures
        n / pow2(s) < pow2((l - s) as nat),
        s < l && pow2((l - 1) as nat) <= n ==> pow2((l - 1 - s) as nat) <= n / pow2(s),
{
    lemma_pow2_pos(s);
    lemma_pow2_adds((l - s) as nat, s);
    assert(pow2(l) == pow2(s) * pow2((l - s) as nat)) by (nonlinear_arith)
        requires
            pow2(l) == pow2((l - s) as nat) * pow2(s),
    ;
    vstd::arithmetic::div_mod::lemma_multiply_divide_lt(n as int, pow2(s) as int, pow2((l - s) as nat) as int);
    if s < l && pow2((l - 1) as nat) <= n {
        lemma_pow2_adds((l - 1 - s) as nat, s);
        vstd::arithmetic::div_mod::lemma_div_by_multiple(pow2((l - 1 - s) as nat) as int, pow2(s) as int);
        vstd::arithmetic::div_mod::lemma_div_is_ordered(pow2((l - 1) as nat) as int, n as int, pow2(s) as int);
    }
}

/// The significand that `round_bits` forms: within `[2^p, 2^(p+1)]` for a
/// normal result, at most `2^p` for a subnormal one.
#[verifier::rlimit(50)]
#[verifier::spinoff_prover]
proof fn lemma_round_significand(n: nat, e: int, p: nat, bias: int)
    requires
        n > 0,
        bias >= 1,
    ensures
        ({
            let lead = bit_len(n) - 1 + e;
            let q = if lead + bias >= 1 {
                lead - p
            } else {
                1 - bias - p
            };
            let m = if q <= e {
                (n * pow2((e - q) as nat)) as int
            } else {
                rne_shift(n, (q - e) as nat) as int
            };
            &&& 0 <= m <= pow2(p + 1)
            &&& lead + bias >= 1 ==> pow2(p) <= m
            &&& q <= e ==> e - q <= p
        }),
{
    lemma_bit_len(n);
    let l = bit_len(n);
    let lead = l - 1 + e;
    lemma_pow2_unfold(p + 1);
    if lead + bias >= 1 {
        let q = lead - p;
        if q <= e {
            let t = (e - q) as nat;
            let lm1 = (l - 1) as nat;
            assert(t + l == p + 1);
            assert(t + lm1 == p);
            lemma_pow2_pos(t);
            lemma_pow2_adds(t, l);
            lemma_pow2_adds(t, lm1);
            assert(n * pow2(t) < pow2(l) * pow2(t)) by (nonlinear_arith)
                requires
                    n < pow2(l),
                    pow2(t) > 0,
            ;
            assert(pow2(lm1) * pow2(t) <= n * pow2(t)) by (nonlinear_arith)
                requires
                    pow2(lm1) <= n,
                    pow2(t) > 0,
            ;
            assert(pow2(l) * pow2(t) == pow2(p + 1));
            assert(pow2(lm1) * pow2(t) == pow2(p));
        } else {
            let s = (q - e) as nat;
            assert(s + p + 1 == l);
            lemma_div_pow2_range(n, l, s);
            let f = n / pow2(s);
            assert(pow2(p) <= f < pow2(p + 1));
        }
    } else {
        let q = 1 - bias - p;
        if q <= e {
            let t = (e - q) as nat;
            assert(t + l <= p);
            lemma_pow2_adds(t, l);
            lemma_pow2_pos(t);
            assert(n * pow2(t) < pow2(l) * pow2(t)) by (nonlinear_arith)
                requires
                    n < pow2(l),
                    pow2(t) > 0,
            ;
            if t + l < p {
                lemma_pow2_strictly_increases(t + l, p);
            }
        } else {
            let s = (q - e) as nat;
            if s <= l {
                lemma_div_pow2_range(n, l, s);
                if l - s < p {
                    lemma_pow2_strictly_increases((l - s) as nat, p);
                }
            } else {
                lemma_pow2_strictly_increases(l, s);
                vstd::arithmetic::div_mod::lemma_basic_div(n as int, pow2(s) as int);
                lemma_pow2_pos(p);
            }
        }
    }
}

/// The magnitude bits of the value nearest to `n * 2^e` in single
/// (`p == 23`) or double (`p == 52`) precision.
fn round_float_bits(n: u64, e: i32, p: u32, bias: i32, emaxraw: u32) -> (r: u64)
    requires
        n <= 0x8000_0000_0000_0000,
        -4000 <= e <= 4000,
        (p == 23 && bias == 127 && emaxraw == 255) || (p == 52 && bias == 1023 && emaxraw == 2047),
    ensures
        r == round_bits(n as nat, e as int, p as nat, bias as int, emaxraw as int),
        r <= emaxraw * pow2(p as nat),
{
    let pp = pow2_exec(p);
    proof {
        lemma2_to64();
        lemma_pow2_adds(32, 20);
        assert(pp <= 0x10_0000_0000_0000);
    }
    let inf: u64 = (emaxraw as u64) * pp;
    if n == 0 {
        return 0;
    }
    proof {
        lemma_round_significand(n as nat, e as int, p as nat, bias as int);
        lemma_bit_len(n as nat);
    }
    let l = bit_len_exec(n);
    let lead: i32 = l as i32 - 1 + e;
    let q: i32 = if lead + bias >= 1 { lead - p as i32 } else { 1 - bias - p as i32 };
    let ghost m_spec = if q <= e {
        (n as nat * pow2((e - q) as nat)) as int
    } else {
        rne_shift(n as nat, (q - e) as nat) as int
    };
    if lead + bias >= emaxraw as i32 {
        proof {
            let b = (q + p + bias - 1) * pow2(p as nat) + m_spec;
            assert(b >= emaxraw * pow2(p as nat)) by (nonlinear_arith)
                requires
                    b == (q + p + bias - 1) * pow2(p as nat) + m_spec,
                    q + p + bias - 1 >= emaxraw - 1,
                    m_spec >= pow2(p as nat),
                    pow2(p as nat) > 0,
            ;
        }
        return inf;
    }
    let m: u64 = if q <= e {
        let t = pow2_exec((e - q) as u32);
        proof {
            lemma_pow2_unfold(p as nat + 1);
            assert(n * t <= 0x20_0000_0000_0000);
        }
        n * t
    } else {
        rne_shift_exec(n, (q - e) as u32)
    };
    proof {
        lemma_pow2_unfold(p as nat + 1);
        assert(m == m_spec);
        assert(0 <= q + p + bias - 1 <= emaxraw);
        assert((q + p + bias - 1) * pp <= 2047 * 0x10_0000_0000_0000) by (nonlinear_arith)
            requires
                0 <= q + p + bias - 1 <= 2047,
                pp <= 0x10_0000_0000_0000,
        ;
    }
    let b: u64 = ((q + p as i32 + bias - 1) as u64) * pp + m;
    if b >= inf {
        inf
    } else {
        b
    }
}


proof fn header_bit_values()
    by (bit_vector)
    ensures
        (1u64 >> 0u64) & 1u64 == 1u64,
        (1u64 >> 1u64) & 1u64 != 1u64,
        (3u64 >> 0u64) & 1u64 == 1u64,
        (3u64 >> 1u64) & 1u64 == 1u64,
{
}

/// The bit planes a block of floating-point values keeps: `maxprec`, or
/// fewer where the block exponent lies close to `minexp`.
pub open spec fn float_precision(emax: int, maxprec: u32, minexp: i32, d: nat) -> u32 {
    let raw = emax - minexp + 2 * d + 2;
    if raw < 0 {
        0
    } else if raw < maxprec {
        raw as u32
    } else {
        maxprec
    }
}

fn float_precision_exec(emax: i32, maxprec: u32, minexp: i32, d: usize) -> (r: u32)
    requires
        1 <= d <= 4,
        -1100 <= emax <= 1100,
    ensures
        r == float_precision(emax as int, maxprec, minexp, d as nat),
{
    let raw: i64 = emax as i64 - minexp as i64 + 2 * d as i64 + 2;
    if raw < 0 {
        0
    } else if raw < maxprec as i64 {
        raw as u32
    } else {
        maxprec
    }
}

fn sat_sub_exec(a: u32, b: u32) -> (r: u32)
    ensures
        r == sat_sub(a, b),
{
    if a >= b {
        a - b
    } else {
        0
    }
}

fn zero_words(n: usize) -> (r: Vec<u64>)
    ensures
        r@ == Seq::new(n as nat, |j: int| 0u64),
{
    let mut v: Vec<u64> = Vec::new();
    let mut k: usize = 0;
    while k < n
        invariant
            k <= n,
            v@ == Seq::new(k as nat, |j: int| 0u64),
        decreases n - k,
    {
        v.push(0);
        k = k + 1;
        proof {
            assert(v@ =~= Seq::new(k as nat, |j: int| 0u64));
        }
    }
    v
}

/// Write a zero bit, then zero bits up to `minbits` bits in all.
fn write_empty_block<S: ZfpBitStreamMutOps>(bs: &mut S, minbits: u32) -> (r: usize)
    requires
        old(bs).spec_state().wf(),
        has_room(old(bs).spec_state(), old(bs).spec_words(), pad_bits(seq![false], minbits as int).len() as int),
    ensures
        final(bs).spec_state().wf(),
        final(bs).spec_words().len() == old(bs).spec_words().len(),
        final(bs).spec_state().written(final(bs).spec_words()) == old(bs).spec_state().written(old(bs).spec_words())
            + pad_bits(seq![false], minbits as int),
        r == pad_bits(seq![false], minbits as int).len(),
{
    let ghost w0 = bs.spec_state().written(bs.spec_words());
    proof {
        assert(w0.len() == bs.spec_state().write_offset());
    }
    bs.write_bit(0);
    proof {
        assert(w0.push(false) =~= w0 + seq![false]);
    }
    if minbits > 1 {
        pad_zeros(bs, minbits - 1);
        proof {
            assert(w0 + seq![false] + zero_bits((minbits - 1) as nat) =~= w0 + (seq![false] + zero_bits((minbits
                - 1) as nat)));
        }
        minbits as usize
    } else {
        1
    }
}

// ---------------------------------------------------------------------------
// single precision
// ---------------------------------------------------------------------------

/// The biased exponent field of a single-precision pattern.
pub open spec fn exp_field_f32(r: u64) -> int {
    (r as int / 0x80_0000) % 256
}

/// The pattern without its sign bit.
pub open spec fn mag_f32(r: u64) -> int {
    r as int % 0x8000_0000
}

/// Whether the sign bit of the pattern is set.
pub open spec fn neg_f32(r: u64) -> bool {
    (r as int / 0x8000_0000) % 2 == 1
}

/// Whether the pattern is a NaN.
pub open spec fn is_nan_f32(r: u64) -> bool {
    exp_field_f32(r) == 255 && r as int % 0x80_0000 != 0
}

/// The largest magnitude pattern among the first `k` values that are not NaN
/// (zero when there is none).
pub open spec fn max_mag_f32(raw: Seq<u64>, k: int) -> int
    decreases k,
{
    if k <= 0 {
        0
    } else {
        let m = max_mag_f32(raw, k - 1);
        let r = raw[k - 1];
        if is_nan_f32(r) || mag_f32(r) <= m {
            m
        } else {
            mag_f32(r)
        }
    }
}

/// The exponent `e` of the magnitude pattern `m` with `|x| = f * 2^e`,
/// `1/2 <= f < 1`, at least that of the least normal value: `-127` for zero,
/// zero for infinity.
pub open spec fn emax_of_mag_f32(m: int) -> int {
    if m == 0 {
        -127
    } else if m / 0x80_0000 == 255 {
        0
    } else if m / 0x80_0000 == 0 {
        -126
    } else {
        m / 0x80_0000 - 126
    }
}

/// The common exponent of a block: that of its largest value.
pub open spec fn spec_block_emax_f32(raw: Seq<u64>) -> int {
    emax_of_mag_f32(max_mag_f32(raw, raw.len() as int))
}

/// The integer that a value becomes relative to the block exponent `emax`:
/// `x * 2^(30 - emax)` truncated toward zero, or the least integer where that
/// is not finite or does not fit, or where `2^(30 - emax)` itself overflows.
pub open spec fn cast_value_f32(r: u64, emax: int) -> int {
    let ef = exp_field_f32(r);
    if emax < -97 || ef == 255 {
        i32::MIN as int
    } else {
        let frac = r as int % 0x80_0000;
        let mant = if ef == 0 {
            frac
        } else {
            frac + 0x80_0000
        };
        let sh = (if ef == 0 {
            1
        } else {
            ef
        }) - 150 + 30 - emax;
        let m = if sh >= 0 {
            mant * pow2(sh as nat)
        } else {
            mant / pow2((-sh) as nat) as int
        };
        if m >= 0x8000_0000 {
            i32::MIN as int
        } else if neg_f32(r) {
            -m
        } else {
            m
        }
    }
}

/// The pattern of `2^(emax - 30) * i`: the integer rounded to the nearest
/// value, then scaled with rounding to the nearest value (a signed zero where
/// the scale factor is below the least subnormal value).
pub open spec fn inv_cast_bits_f32(i: int, emax: int) -> u64 {
    let k = emax - 30;
    let a = if i < 0 {
        -i
    } else {
        i
    };
    if k < -149 {
        if i < 0 {
            0x8000_0000
        } else {
            0
        }
    } else {
        let fi = round_bits(a as nat, 0, 23, 127, 255);
        if fi == 0 {
            0
        } else {
            let b = round_bits((fi % 0x80_0000 + 0x80_0000) as nat, fi / 0x80_0000 - 150 + k, 23, 127, 255);
            (if i < 0 {
                b + 0x8000_0000
            } else {
                b
            }) as u64
        }
    }
}

/// The integer a pattern stands for when it is read as two's complement of
/// its magnitude: the magnitude for a positive pattern, `-1 - magnitude` for a
/// negative one.
pub open spec fn tc_value_f32(r: u64) -> int {
    if neg_f32(r) {
        -1 - mag_f32(r)
    } else {
        mag_f32(r)
    }
}

/// The pattern that `tc_value_f32` maps to `i`.
pub open spec fn untc_bits_f32(i: int) -> u64 {
    if i < 0 {
        (0x8000_0000 + (-1 - i)) as u64
    } else {
        i as u64
    }
}

/// The block as integers relative to its exponent.
pub open spec fn cast_block_f32(raw: Seq<u64>, emax: int) -> Seq<i32> {
    Seq::new(raw.len(), |j: int| cast_value_f32(raw[j], emax) as i32)
}

/// The patterns of a block of integers scaled by `2^(emax - 30)`.
pub open spec fn inv_cast_block_f32(ib: Seq<i32>, emax: int) -> Seq<u64> {
    Seq::new(ib.len(), |j: int| inv_cast_bits_f32(ib[j] as int, emax))
}

/// The block as two's complement integers.
pub open spec fn tc_block_f32(raw: Seq<u64>) -> Seq<i32> {
    Seq::new(raw.len(), |j: int| tc_value_f32(raw[j]) as i32)
}

/// The patterns of a block of two's complement integers.
pub open spec fn untc_block_f32(ib: Seq<i32>) -> Seq<u64> {
    Seq::new(ib.len(), |j: int| untc_bits_f32(ib[j] as int))
}

/// Every value of the block is a pattern of 32 bits.
pub open spec fn patterns_f32(raw: Seq<u64>) -> bool {
    forall|j: int| 0 <= j < raw.len() ==> #[trigger] raw[j] < 0x8000_0000 * 2
}

fn max_magnitude_f32(raw: &[u64]) -> (m: u64)
    requires
        patterns_f32(raw@),
    ensures
        m == max_mag_f32(raw@, raw@.len() as int),
        m < 0x8000_0000,
{
    let mut m: u64 = 0;
    let mut k: usize = 0;
    while k < raw.len()
        invariant
            k <= raw@.len(),
            m == max_mag_f32(raw@, k as int),
            m < 0x8000_0000,
        decreases raw@.len() - k,
    {
        let r = raw[k];
        let nan = (r / 0x80_0000) % 256 == 255 && r % 0x80_0000 != 0;
        let mag = r % 0x8000_0000;
        if !(nan || mag <= m) {
            m = mag;
        }
        k = k + 1;
    }
    m
}

/// The common exponent of a block.
pub fn block_emax_f32(raw: &[u64]) -> (e: i32)
    requires
        patterns_f32(raw@),
    ensures
        e == spec_block_emax_f32(raw@),
        -127 <= e <= 255 - 127,
{
    let m = max_magnitude_f32(raw);
    if m == 0 {
        -127
    } else if m / 0x80_0000 == 255 {
        0
    } else if m / 0x80_0000 == 0 {
        -126
    } else {
        (m / 0x80_0000) as i32 - 126
    }
}

/// The integer a value becomes relative to the block exponent `emax`.
fn cast_value_exec_f32(r: u64, emax: i32) -> (v: i32)
    requires
        r < 0x8000_0000 * 2,
        -127 <= emax <= 255 - 126,
    ensures
        v == cast_value_f32(r, emax as int),
{
    let ef = (r / 0x80_0000) % 256;
    if emax < -97 || ef == 255 {
        return i32::MIN;
    }
    let frac = r % 0x80_0000;
    let mant: u64 = if ef == 0 { frac } else { frac + 0x80_0000 };
    let efx: i32 = if ef == 0 { 1 } else { ef as i32 };
    let sh: i32 = efx - 150 + 30 - emax;
    let neg = (r / 0x8000_0000) % 2 == 1;
    let m: u64 = if sh >= 0 {
        if mant == 0 {
            0
        } else if sh >= 31 {
            proof {
                lemma_pow2_64();
                if sh > 31 {
                    lemma_pow2_strictly_increases(31, sh as nat);
                }
                assert(pow2(31) == 0x8000_0000) by {
                    lemma2_to64();
                }
                assert(mant * pow2(sh as nat) >= pow2(sh as nat)) by (nonlinear_arith)
                    requires
                        mant >= 1,
                ;
            }
            return i32::MIN;
        } else {
            let pw = pow2_exec(sh as u32);
            proof {
                lemma_pow2_64();
                lemma2_to64();
                vstd::arithmetic::power2::lemma2_to64_rest();
                if sh < 31 - 1 {
                    lemma_pow2_strictly_increases(sh as nat, (31 - 1) as nat);
                }
                assert(mant * pw <= 0x40_0000_0000_0000 * 0x4000_0000_0000_0000) by (nonlinear_arith)
                    requires
                        mant <= 0x40_0000_0000_0000,
                        pw <= 0x4000_0000_0000_0000,
                ;
            }
            let prod: u128 = (mant as u128) * (pw as u128);
            if prod >= 0x8000_0000 as u128 {
                return i32::MIN;
            }
            prod as u64
        }
    } else if sh <= -64 {
        proof {
            lemma_pow2_64();
            if sh < -64 {
                lemma_pow2_strictly_increases(64, (-sh) as nat);
            }
            vstd::arithmetic::div_mod::lemma_basic_div(mant as int, pow2((-sh) as nat) as int);
        }
        0
    } else {
        let pw = pow2_exec((0 - sh) as u32);
        proof {
            lemma_pow2_pos((-sh) as nat);
        }
        mant / pw
    };
    if m >= 0x8000_0000 {
        i32::MIN
    } else if neg {
        0 - (m as i32)
    } else {
        m as i32
    }
}

/// The block as integers relative to its exponent.
pub fn fwd_cast_f32(raw: &[u64], emax: i32) -> (ib: Vec<i32>)
    requires
        patterns_f32(raw@),
        -127 <= emax <= 255 - 126,
    ensures
        ib@ == cast_block_f32(raw@, emax as int),
{
    let mut ib: Vec<i32> = Vec::new();
    let mut k: usize = 0;
    while k < raw.len()
        invariant
            k <= raw@.len(),
            patterns_f32(raw@),
            -127 <= emax <= 255 - 126,
            ib@ == cast_block_f32(raw@, emax as int).take(k as int),
        decreases raw@.len() - k,
    {
        let v = cast_value_exec_f32(raw[k], emax);
        proof {
            assert(cast_block_f32(raw@, emax as int).take(k + 1) =~= cast_block_f32(raw@, emax as int).take(k as int).push(v));
        }
        ib.push(v);
        k = k + 1;
    }
    proof {
        assert(cast_block_f32(raw@, emax as int).take(k as int) =~= cast_block_f32(raw@, emax as int));
    }
    ib
}

/// The pattern of `2^(emax - 30) * i`.
pub fn inv_cast_value_f32(i: i32, emax: i32) -> (r: u64)
    requires
        -127 <= emax <= 255 - 127,
    ensures
        r == inv_cast_bits_f32(i as int, emax as int),
{
    let k: i32 = emax - 30;
    if k < -149 {
        return if i < 0 { 0x8000_0000 } else { 0 };
    }
    let a: u64 = if i < 0 { (0 - (i as i128)) as u64 } else { i as u64 };
    let fi = round_float_bits(a, 0, 23, 127, 255);
    if fi == 0 {
        return 0;
    }
    proof {
        lemma2_to64();
        lemma_pow2_adds(32, 20);
    }
    let ef = fi / 0x80_0000;
    let mant = fi % 0x80_0000 + 0x80_0000;
    let b = round_float_bits(mant, ef as i32 - 150 + k, 23, 127, 255);
    if i < 0 {
        b + 0x8000_0000
    } else {
        b
    }
}

/// The bits of a block of single-precision values coded lossily: a zero bit
/// when no plane is kept (padded to `minbits`); otherwise a one bit, the
/// biased block exponent in 8 bits, and the block cast to integers, coded
/// as an integer block within the remaining budget.
pub open spec fn lossy_float_bits_f32(raw: Seq<u64>, d: nat, minbits: u32, maxbits: u32, maxprec: u32, minexp: i32) -> Seq<bool> {
    let emax = spec_block_emax_f32(raw);
    let prec = float_precision(emax, maxprec, minexp, d);
    let e = if prec != 0 {
        emax + 127
    } else {
        0
    };
    if e != 0 {
        low_bits((2 * e + 1) as u64, 9) + lossy_int_bits_i32(
            cast_block_f32(raw, emax),
            d,
            sat_sub(minbits, 9),
            sat_sub(maxbits, 9),
            prec,
        )
    } else {
        pad_bits(seq![false], minbits as int)
    }
}

/// The block of single-precision patterns and the bit count that lossy
/// decoding reads from `src`.
pub open spec fn lossy_float_decode_f32(
    src: spec_fn(int) -> bool,
    d: nat,
    minbits: u32,
    maxbits: u32,
    maxprec: u32,
    minexp: i32,
) -> (Seq<u64>, int) {
    if src(0) {
        let emax = bits_value(|j: int| src(1 + j), 0, 8) - 127;
        let prec = float_precision(emax, maxprec, minexp, d);
        let dec = lossy_int_decode_i32(
            |j: int| src(9 + j),
            d,
            sat_sub(minbits, 9),
            sat_sub(maxbits, 9),
            prec,
        );
        (inv_cast_block_f32(dec.0, emax), 9 + dec.1)
    } else {
        (Seq::new(pow4n(d) as nat, |j: int| 0u64), if minbits > 1 {
            minbits as int
        } else {
            1
        })
    }
}

/// Code a block of `4^d` single-precision patterns lossily; return the bits written.
#[verifier::rlimit(50)]
#[verifier::spinoff_prover]
pub fn encode_lossy_float_block_f32<S: ZfpBitStreamMutOps>(
    bs: &mut S,
    raw: &[u64],
    d: usize,
    minbits: u32,
    maxbits: u32,
    maxprec: u32,
    minexp: i32,
) -> (r: u64)
    requires
        old(bs).spec_state().wf(),
        1 <= d <= 4,
        raw@.len() == pow4n(d as nat),
        patterns_f32(raw@),
        has_room(
            old(bs).spec_state(),
            old(bs).spec_words(),
            lossy_float_bits_f32(raw@, d as nat, minbits, maxbits, maxprec, minexp).len() as int,
        ),
    ensures
        final(bs).spec_state().wf(),
        final(bs).spec_words().len() == old(bs).spec_words().len(),
        final(bs).spec_state().written(final(bs).spec_words()) == old(bs).spec_state().written(old(bs).spec_words())
            + lossy_float_bits_f32(raw@, d as nat, minbits, maxbits, maxprec, minexp),
        r == lossy_float_bits_f32(raw@, d as nat, minbits, maxbits, maxprec, minexp).len(),
{
    let emax = block_emax_f32(raw);
    let prec = float_precision_exec(emax, maxprec, minexp, d);
    let e: u32 = if prec != 0 { (emax + 127) as u32 } else { 0 };
    let ghost w0 = bs.spec_state().written(bs.spec_words());
    let ghost total = lossy_float_bits_f32(raw@, d as nat, minbits, maxbits, maxprec, minexp);
    proof {
        assert(w0.len() == bs.spec_state().write_offset());
    }
    if e != 0 {
        let ib = fwd_cast_f32(raw, emax);
        let ghost ints = lossy_int_bits_i32(ib@, d as nat, sat_sub(minbits, 9), sat_sub(maxbits, 9), prec);
        proof {
            assert(total == low_bits((2 * e + 1) as u64, 9) + ints);
        }
        bs.write_bits((2 * e + 1) as u64, 9);
        let n = encode_int_block_i32(
            bs,
            ib.as_slice(),
            d,
            sat_sub_exec(minbits, 9),
            sat_sub_exec(maxbits, 9),
            prec,
        );
        proof {
            assert(w0 + low_bits((2 * e + 1) as u64, 9) + ints =~= w0 + total);
        }
        9 as u64 + n as u64
    } else {
        write_empty_block(bs, minbits) as u64
    }
}

/// Decode a block of `4^d` single-precision patterns coded lossily; return the bits read.
#[verifier::rlimit(50)]
#[verifier::spinoff_prover]
pub fn decode_lossy_float_block_f32<S: ZfpBitStreamOps>(
    bs: &mut S,
    out: &mut [u64],
    d: usize,
    minbits: u32,
    maxbits: u32,
    maxprec: u32,
    minexp: i32,
    Ghost(src): Ghost<spec_fn(int) -> bool>,
) -> (r: u64)
    requires
        old(bs).spec_state().wf(),
        1 <= d <= 4,
        old(out)@.len() == pow4n(d as nat),
        forall|j: int| 0 <= j ==> #[trigger] old(bs).spec_state().pending(old(bs).spec_words(), j) == src(j),
    ensures
        ({
            let dec = lossy_float_decode_f32(src, d as nat, minbits, maxbits, maxprec, minexp);
            &&& final(out)@ == dec.0
            &&& r == dec.1
            &&& forall|j: int| 0 <= j ==> #[trigger] final(bs).spec_state().pending(final(bs).spec_words(), j) == src(r + j)
        }),
        final(bs).spec_state().wf(),
        final(bs).spec_words() == old(bs).spec_words(),
        final(out)@.len() == old(out)@.len(),
        reads_within(old(bs).spec_words(), old(bs).spec_state(), r as int) ==> final(bs).spec_state().read_offset()
            == old(bs).spec_state().read_offset() + r,
{
    let ghost w = bs.spec_words();
    let ghost sa = bs.spec_state();
    let n = out.len();
    let b = bs.read_bit();
    let ghost sb = bs.spec_state();
    if b == 1 {
        let ghost s1 = |j: int| src(1 + j);
        let v = read_value(bs, 8, Ghost(s1));
        let ghost sc = bs.spec_state();
        proof {
            bits_value_bound(s1, 0, 8);
            lemma2_to64();
            vstd::bits::lemma_u64_shl_is_mul(1, 8);
        }
        let emax: i32 = v as i32 - 127;
        let prec = float_precision_exec(emax, maxprec, minexp, d);
        let mut ib: Vec<i32> = Vec::new();
        let mut k: usize = 0;
        while k < n
            invariant
                k <= n,
                ib@.len() == k,
            decreases n - k,
        {
            ib.push(0);
            k = k + 1;
        }
        let ghost s2 = |j: int| src(9 + j);
        let bits = decode_int_block_i32(
            bs,
            ib.as_mut_slice(),
            d,
            sat_sub_exec(minbits, 9),
            sat_sub_exec(maxbits, 9),
            prec,
            Ghost(s2),
        );
        let mut k: usize = 0;
        while k < n
            invariant
                k <= n,
                n == out@.len(),
                n == ib@.len(),
                -127 <= emax <= 255 - 127,
                forall|j: int| 0 <= j < k ==> #[trigger] out@[j] == inv_cast_bits_f32(ib@[j] as int, emax as int),
            decreases n - k,
        {
            out[k] = inv_cast_value_f32(ib[k], emax);
            k = k + 1;
        }
        proof {
            assert(out@ =~= inv_cast_block_f32(ib@, emax as int));
            if reads_within(w, sa, 9 + bits) {
                lemma_reads_within(w, sa, 9 + bits, 1);
                assert(reads_within(w, sb, 8 as int));
                assert(reads_within(w, sc, bits as int));
            }
        }
        9 as u64 + bits as u64
    } else {
        let mut k: usize = 0;
        while k < n
            invariant
                k <= n,
                n == out@.len(),
                forall|j: int| 0 <= j < k ==> #[trigger] out@[j] == 0u64,
            decreases n - k,
        {
            out[k] = 0;
            k = k + 1;
        }
        proof {
            assert(out@ =~= Seq::new(pow4n(d as nat) as nat, |j: int| 0u64));
        }
        proof {
            let tot: int = if minbits > 1 { minbits as int } else { 1 };
            if reads_within(w, sa, tot) {
                lemma_reads_within(w, sa, tot, 1);
                assert(reads_within(w, sb, tot - 1));
            }
        }
        if minbits > 1 {
            discard_bits(bs, minbits - 1);
            minbits as u64
        } else {
            1
        }
    }
}

/// Whether casting the block to integers relative to `emax` and back gives
/// every pattern back.
pub open spec fn bfp_exact_f32(raw: Seq<u64>, ib: Seq<i32>, emax: int) -> bool {
    forall|j: int| 0 <= j < raw.len() ==> #[trigger] inv_cast_bits_f32(ib[j] as int, emax) == raw[j]
}

/// The integers a reversible block tries first: the cast relative to the
/// block exponent, or zeros for a block without a nonzero value.
pub open spec fn rev_ints_f32(raw: Seq<u64>, emax: int) -> Seq<i32> {
    if emax + 127 != 0 {
        cast_block_f32(raw, emax)
    } else {
        Seq::new(raw.len(), |j: int| 0i32)
    }
}

/// The bits of a block of single-precision values coded reversibly: a zero
/// bit for a block of positive zeros; `1, 0`, the biased exponent in 8 bits
/// and the integer block when the cast to integers is exact; otherwise `1, 1`
/// and the patterns as two's complement integers.
pub open spec fn rev_float_bits_f32(raw: Seq<u64>, d: nat, maxbits: u32) -> Seq<bool> {
    let emax = spec_block_emax_f32(raw);
    let e = emax + 127;
    let ib = rev_ints_f32(raw, emax);
    if bfp_exact_f32(raw, ib, emax) {
        if e != 0 {
            low_bits(1, 2) + low_bits(e as u64, 8) + rev_int_bits_i32(ib, d, sat_sub(maxbits, 10))
        } else {
            seq![false]
        }
    } else {
        low_bits(3, 2) + rev_int_bits_i32(tc_block_f32(raw), d, sat_sub(maxbits, 2))
    }
}

/// The block of single-precision patterns and the bit count that reversible
/// decoding reads from `src`.
pub open spec fn rev_float_decode_f32(src: spec_fn(int) -> bool, d: nat, maxbits: u32) -> (Seq<u64>, int) {
    if !src(0) {
        (Seq::new(pow4n(d) as nat, |j: int| 0u64), 1)
    } else if src(1) {
        let dec = rev_int_decode_i32(|j: int| src(2 + j), d, sat_sub(maxbits, 2));
        (untc_block_f32(dec.0), 2 + dec.1)
    } else {
        let emax = bits_value(|j: int| src(2 + j), 0, 8) - 127;
        let dec = rev_int_decode_i32(|j: int| src(10 + j), d, sat_sub(maxbits, 10));
        (inv_cast_block_f32(dec.0, emax), 10 + dec.1)
    }
}

fn bfp_check_f32(raw: &[u64], ib: &[i32], emax: i32) -> (r: bool)
    requires
        raw@.len() == ib@.len(),
        -127 <= emax <= 255 - 127,
    ensures
        r == bfp_exact_f32(raw@, ib@, emax as int),
{
    let mut k: usize = 0;
    while k < raw.len()
        invariant
            k <= raw@.len(),
            raw@.len() == ib@.len(),
            -127 <= emax <= 255 - 127,
            forall|j: int| 0 <= j < k ==> #[trigger] inv_cast_bits_f32(ib@[j] as int, emax as int) == raw@[j],
        decreases raw@.len() - k,
    {
        if inv_cast_value_f32(ib[k], emax) != raw[k] {
            return false;
        }
        k = k + 1;
    }
    true
}

fn tc_block_exec_f32(raw: &[u64]) -> (ib: Vec<i32>)
    requires
        patterns_f32(raw@),
    ensures
        ib@ == tc_block_f32(raw@),
{
    let mut ib: Vec<i32> = Vec::new();
    let mut k: usize = 0;
    while k < raw.len()
        invariant
            k <= raw@.len(),
            patterns_f32(raw@),
            ib@ == tc_block_f32(raw@).take(k as int),
        decreases raw@.len() - k,
    {
        let r = raw[k];
        let mag = r % 0x8000_0000;
        let v: i32 = if (r / 0x8000_0000) % 2 == 1 {
            0 - 1 - (mag as i32)
        } else {
            mag as i32
        };
        proof {
            assert(tc_block_f32(raw@).take(k + 1) =~= tc_block_f32(raw@).take(k as int).push(v));
        }
        ib.push(v);
        k = k + 1;
    }
    proof {
        assert(tc_block_f32(raw@).take(k as int) =~= tc_block_f32(raw@));
    }
    ib
}

/// Code a block of `4^d` single-precision patterns reversibly; return the bits written.
#[verifier::rlimit(50)]
#[verifier::spinoff_prover]
pub fn encode_rev_float_block_f32<S: ZfpBitStreamMutOps>(bs: &mut S, raw: &[u64], d: usize, maxbits: u32) -> (r: usize)
    requires
        old(bs).spec_state().wf(),
        1 <= d <= 4,
        raw@.len() == pow4n(d as nat),
        patterns_f32(raw@),
        has_room(old(bs).spec_state(), old(bs).spec_words(), rev_float_bits_f32(raw@, d as nat, maxbits).len() as int),
    ensures
        final(bs).spec_state().wf(),
        final(bs).spec_words().len() == old(bs).spec_words().len(),
        final(bs).spec_state().written(final(bs).spec_words()) == old(bs).spec_state().written(old(bs).spec_words())
            + rev_float_bits_f32(raw@, d as nat, maxbits),
        r == rev_float_bits_f32(raw@, d as nat, maxbits).len(),
{
    let emax = block_emax_f32(raw);
    let e: u32 = (emax + 127) as u32;
    let ib: Vec<i32> = if e != 0 {
        fwd_cast_f32(raw, emax)
    } else {
        let mut z: Vec<i32> = Vec::new();
        let mut k: usize = 0;
        while k < raw.len()
            invariant
                k <= raw@.len(),
                z@ == Seq::new(k as nat, |j: int| 0i32),
            decreases raw@.len() - k,
        {
            z.push(0);
            k = k + 1;
            proof {
                assert(z@ =~= Seq::new(k as nat, |j: int| 0i32));
            }
        }
        z
    };
    proof {
        assert(ib@ == rev_ints_f32(raw@, emax as int));
    }
    let ghost w0 = bs.spec_state().written(bs.spec_words());
    let ghost total = rev_float_bits_f32(raw@, d as nat, maxbits);
    proof {
        assert(w0.len() == bs.spec_state().write_offset());
    }
    if bfp_check_f32(raw, ib.as_slice(), emax) {
        if e != 0 {
            let ghost ints = rev_int_bits_i32(ib@, d as nat, sat_sub(maxbits, 10));
            proof {
                assert(total == low_bits(1, 2) + low_bits(e as u64, 8) + ints);
            }
            bs.write_bits(1, 2);
            bs.write_bits(e as u64, 8);
            let n = encode_rev_int_block_i32(bs, ib.as_slice(), d, sat_sub_exec(maxbits, 10));
            proof {
                assert(w0 + low_bits(1, 2) + low_bits(e as u64, 8) + ints =~= w0 + total);
            }
            10 + n
        } else {
            bs.write_bit(0);
            proof {
                assert(w0.push(false) =~= w0 + total);
            }
            1
        }
    } else {
        let tc = tc_block_exec_f32(raw);
        let ghost ints = rev_int_bits_i32(tc@, d as nat, sat_sub(maxbits, 2));
        proof {
            assert(total == low_bits(3, 2) + ints);
        }
        bs.write_bits(3, 2);
        let n = encode_rev_int_block_i32(bs, tc.as_slice(), d, sat_sub_exec(maxbits, 2));
        proof {
            assert(w0 + low_bits(3, 2) + ints =~= w0 + total);
        }
        2 + n
    }
}

/// Decode a block of `4^d` single-precision patterns coded reversibly; return the bits read.
#[verifier::rlimit(50)]
#[verifier::spinoff_prover]
pub fn decode_rev_float_block_f32<S: ZfpBitStreamOps>(
    bs: &mut S,
    out: &mut [u64],
    d: usize,
    maxbits: u32,
    Ghost(src): Ghost<spec_fn(int) -> bool>,
) -> (r: usize)
    requires
        old(bs).spec_state().wf(),
        1 <= d <= 4,
        old(out)@.len() == pow4n(d as nat),
        forall|j: int| 0 <= j ==> #[trigger] old(bs).spec_state().pending(old(bs).spec_words(), j) == src(j),
    ensures
        ({
            let dec = rev_float_decode_f32(src, d as nat, maxbits);
            &&& final(out)@ == dec.0
            &&& r == dec.1
            &&& forall|j: int| 0 <= j ==> #[trigger] final(bs).spec_state().pending(final(bs).spec_words(), j) == src(r + j)
        }),
        final(bs).spec_state().wf(),
        final(bs).spec_words() == old(bs).spec_words(),
        final(out)@.len() == old(out)@.len(),
        reads_within(old(bs).spec_words(), old(bs).spec_state(), r as int) ==> final(bs).spec_state().read_offset()
            == old(bs).spec_state().read_offset() + r,
{
    let ghost w = bs.spec_words();
    let ghost sa = bs.spec_state();
    let n = out.len();
    let b0 = bs.read_bit();
    let ghost sb = bs.spec_state();
    if b0 == 0 {
        let mut k: usize = 0;
        while k < n
            invariant
                k <= n,
                n == out@.len(),
                forall|j: int| 0 <= j < k ==> #[trigger] out@[j] == 0u64,
            decreases n - k,
        {
            out[k] = 0;
            k = k + 1;
        }
        proof {
            assert(out@ =~= Seq::new(pow4n(d as nat) as nat, |j: int| 0u64));
            if reads_within(w, sa, 1) {
                lemma_reads_within(w, sa, 1, 1);
            }
        }
        return 1;
    }
    let b1 = bs.read_bit();
    let ghost sc = bs.spec_state();
    let mut ib: Vec<i32> = Vec::new();
    let mut k: usize = 0;
    while k < n
        invariant
            k <= n,
            ib@.len() == k,
        decreases n - k,
    {
        ib.push(0);
        k = k + 1;
    }
    if b1 == 1 {
        let ghost s2 = |j: int| src(2 + j);
        let bits = decode_rev_int_block_i32(bs, ib.as_mut_slice(), d, sat_sub_exec(maxbits, 2), Ghost(s2));
        let mut k: usize = 0;
        while k < n
            invariant
                k <= n,
                n == out@.len(),
                n == ib@.len(),
                forall|j: int| 0 <= j < k ==> #[trigger] out@[j] == untc_bits_f32(ib@[j] as int),
            decreases n - k,
        {
            let i = ib[k];
            out[k] = if i < 0 {
                0x8000_0000 + ((0 - 1 - (i as i128)) as u64)
            } else {
                i as u64
            };
            k = k + 1;
        }
        proof {
            assert(out@ =~= untc_block_f32(ib@));
            if reads_within(w, sa, 2 + bits) {
                lemma_reads_within(w, sa, 2 + bits, 1);
                lemma_reads_within(w, sb, 1 + bits, 1);
                assert(reads_within(w, sc, bits as int));
            }
        }
        2 + bits
    } else {
        let ghost s1 = |j: int| src(2 + j);
        let v = read_value(bs, 8, Ghost(s1));
        let ghost sd = bs.spec_state();
        proof {
            bits_value_bound(s1, 0, 8);
            lemma2_to64();
            vstd::bits::lemma_u64_shl_is_mul(1, 8);
        }
        let emax: i32 = v as i32 - 127;
        let ghost s3 = |j: int| src(10 + j);
        let bits = decode_rev_int_block_i32(bs, ib.as_mut_slice(), d, sat_sub_exec(maxbits, 10), Ghost(s3));
        let mut k: usize = 0;
        while k < n
            invariant
                k <= n,
                n == out@.len(),
                n == ib@.len(),
                -127 <= emax <= 255 - 127,
                forall|j: int| 0 <= j < k ==> #[trigger] out@[j] == inv_cast_bits_f32(ib@[j] as int, emax as int),
            decreases n - k,
        {
            out[k] = inv_cast_value_f32(ib[k], emax);
            k = k + 1;
        }
        proof {
            assert(out@ =~= inv_cast_block_f32(ib@, emax as int));
            if reads_within(w, sa, 10 + bits) {
                lemma_reads_within(w, sa, 10 + bits, 1);
                lemma_reads_within(w, sb, 10 - 1 + bits, 1);
                assert(reads_within(w, sc, 8 + bits));
                assert(reads_within(w, sd, bits as int));
            }
        }
        10 + bits
    }
}

proof fn lemma_max_mag_bound_f32(raw: Seq<u64>, k: int)
    requires
        patterns_f32(raw),
        k <= raw.len(),
    ensures
        0 <= max_mag_f32(raw, k) < 0x8000_0000,
    decreases k,
{
    if k > 0 {
        lemma_max_mag_bound_f32(raw, k - 1);
    }
}

pub(crate) proof fn lemma_block_emax_range_f32(raw: Seq<u64>)
    requires
        patterns_f32(raw),
    ensures
        -127 <= spec_block_emax_f32(raw) <= 255 - 127,
{
    lemma_max_mag_bound_f32(raw, raw.len() as int);
}

/// Reversible coding of a block of single-precision values is lossless:
/// decoding the bits that coding wrote gives back every pattern, and reads
/// exactly those bits.
#[verifier::rlimit(50)]
#[verifier::spinoff_prover]
pub proof fn lemma_rev_float_roundtrip_f32(raw: Seq<u64>, d: nat, maxbits: u32, src: spec_fn(int) -> bool)
    requires
        1 <= d <= 4,
        raw.len() == pow4n(d),
        patterns_f32(raw),
        maxbits >= 17000,
        forall|t: int| 0 <= t < rev_float_bits_f32(raw, d, maxbits).len() ==> src(t) == #[trigger] rev_float_bits_f32(raw, d, maxbits)[t],
    ensures
        rev_float_decode_f32(src, d, maxbits) == (raw, rev_float_bits_f32(raw, d, maxbits).len() as int),
{
    let all = rev_float_bits_f32(raw, d, maxbits);
    let emax = spec_block_emax_f32(raw);
    let e = emax + 127;
    let ib = rev_ints_f32(raw, emax);
    lemma_block_emax_range_f32(raw);
    header_bit_values();
    if bfp_exact_f32(raw, ib, emax) {
        if e != 0 {
            let ints = rev_int_bits_i32(ib, d, sat_sub(maxbits, 10));
            assert(all == low_bits(1, 2) + low_bits(e as u64, 8) + ints);
            assert(src(0) == all[0] && src(1) == all[1]);
            let s1 = |j: int| src(2 + j);
            assert forall|j: int| 0 <= j < 8 implies #[trigger] s1(0 + j) == crate::codec::embedded::plane_bit(e as u64, j) by {
                assert(src(2 + j) == all[2 + j]);
            }
            lemma2_to64();
            vstd::bits::lemma_u64_shr_is_div(e as u64, 8);
            crate::codec::block::lemma_read_value(s1, 0, e as u64, 8);
            let s3 = |j: int| src(10 + j);
            assert forall|t: int| 0 <= t < ints.len() implies s3(t) == #[trigger] ints[t] by {
                assert(src(10 + t) == all[10 + t]);
            }
            crate::codec::block::lemma_rev_int_block_roundtrip_i32(ib, d, sat_sub(maxbits, 10), s3);
            let dec = rev_int_decode_i32(s3, d, sat_sub(maxbits, 10));
            assert(inv_cast_block_f32(dec.0, emax) =~= raw);
        } else {
            assert(src(0) == all[0]);
            assert forall|j: int| 0 <= j < raw.len() implies raw[j] == 0u64 by {
                assert(inv_cast_bits_f32(ib[j] as int, emax) == raw[j]);
            }
            assert(raw =~= Seq::new(pow4n(d) as nat, |j: int| 0u64));
        }
    } else {
        let tc = tc_block_f32(raw);
        let ints = rev_int_bits_i32(tc, d, sat_sub(maxbits, 2));
        assert(all == low_bits(3, 2) + ints);
        assert(src(0) == all[0] && src(1) == all[1]);
        let s2 = |j: int| src(2 + j);
        assert forall|t: int| 0 <= t < ints.len() implies s2(t) == #[trigger] ints[t] by {
            assert(src(2 + t) == all[2 + t]);
        }
        crate::codec::block::lemma_rev_int_block_roundtrip_i32(tc, d, sat_sub(maxbits, 2), s2);
        assert forall|j: int| 0 <= j < raw.len() implies #[trigger] untc_bits_f32(tc[j] as int) == raw[j] by {
            assert(raw[j] < 0x8000_0000 * 2);
        }
        assert(untc_block_f32(tc) =~= raw);
    }
}

// ---------------------------------------------------------------------------
// double precision
// ---------------------------------------------------------------------------

/// The biased exponent field of a double-precision pattern.
pub open spec fn exp_field_f64(r: u64) -> int {
    (r as int / 0x10_0000_0000_0000) % 2048
}

/// The pattern without its sign bit.
pub open spec fn mag_f64(r: u64) -> int {
    r as int % 0x8000_0000_0000_0000
}

/// Whether the sign bit of the pattern is set.
pub open spec fn neg_f64(r: u64) -> bool {
    (r as int / 0x8000_0000_0000_0000) % 2 == 1
}

/// Whether the pattern is a NaN.
pub open spec fn is_nan_f64(r: u64) -> bool {
    exp_field_f64(r) == 2047 && r as int % 0x10_0000_0000_0000 != 0
}

/// The largest magnitude pattern among the first `k` values that are not NaN
/// (zero when there is none).
pub open spec fn max_mag_f64(raw: Seq<u64>, k: int) -> int
    decreases k,
{
    if k <= 0 {
        0
    } else {
        let m = max_mag_f64(raw, k - 1);
        let r = raw[k - 1];
        if is_nan_f64(r) || mag_f64(r) <= m {
            m
        } else {
            mag_f64(r)
        }
    }
}

/// The exponent `e` of the magnitude pattern `m` with `|x| = f * 2^e`,
/// `1/2 <= f < 1`, at least that of the least normal value: `-1023` for zero,
/// zero for infinity.
pub open spec fn emax_of_mag_f64(m: int) -> int {
    if m == 0 {
        -1023
    } else if m / 0x10_0000_0000_0000 == 2047 {
        0
    } else if m / 0x10_0000_0000_0000 == 0 {
        -1022
    } else {
        m / 0x10_0000_0000_0000 - 1022
    }
}

/// The common exponent of a block: that of its largest value.
pub open spec fn spec_block_emax_f64(raw: Seq<u64>) -> int {
    emax_of_mag_f64(max_mag_f64(raw, raw.len() as int))
}

/// The integer that a value becomes relative to the block exponent `emax`:
/// `x * 2^(62 - emax)` truncated toward zero, or the least integer where that
/// is not finite or does not fit, or where `2^(62 - emax)` itself overflows.
pub open spec fn cast_value_f64(r: u64, emax: int) -> int {
    let ef = exp_field_f64(r);
    if emax < -961 || ef == 2047 {
        i64::MIN as int
    } else {
        let frac = r as int % 0x10_0000_0000_0000;
        let mant = if ef == 0 {
            frac
        } else {
            frac + 0x10_0000_0000_0000
        };
        let sh = (if ef == 0 {
            1
        } else {
            ef
        }) - 1075 + 62 - emax;
        let m = if sh >= 0 {
            mant * pow2(sh as nat)
        } else {
            mant / pow2((-sh) as nat) as int
        };
        if m >= 0x8000_0000_0000_0000 {
            i64::MIN as int
        } else if neg_f64(r) {
            -m
        } else {
            m
        }
    }
}

/// The pattern of `2^(emax - 62) * i`: the integer rounded to the nearest
/// value, then scaled with rounding to the nearest value (a signed zero where
/// the scale factor is below the least subnormal value).
pub open spec fn inv_cast_bits_f64(i: int, emax: int) -> u64 {
    let k = emax - 62;
    let a = if i < 0 {
        -i
    } else {
        i
    };
    if k < -1074 {
        if i < 0 {
            0x8000_0000_0000_0000
        } else {
            0
        }
    } else {
        let fi = round_bits(a as nat, 0, 52, 1023, 2047);
        if fi == 0 {
            0
        } else {
            let b = round_bits((fi % 0x10_0000_0000_0000 + 0x10_0000_0000_0000) as nat, fi / 0x10_0000_0000_0000 - 1075 + k, 52, 1023, 2047);
            (if i < 0 {
                b + 0x8000_0000_0000_0000
            } else {
                b
            }) as u64
        }
    }
}

/// The integer a pattern stands for when it is read as two's complement of
/// its magnitude: the magnitude for a positive pattern, `-1 - magnitude` for a
/// negative one.
pub open spec fn tc_value_f64(r: u64) -> int {
    if neg_f64(r) {
        -1 - mag_f64(r)
    } else {
        mag_f64(r)
    }
}

/// The pattern that `tc_value_f64` maps to `i`.
pub open spec fn untc_bits_f64(i: int) -> u64 {
    if i < 0 {
        (0x8000_0000_0000_0000 + (-1 - i)) as u64
    } else {
        i as u64
    }
}

/// The block as integers relative to its exponent.
pub open spec fn cast_block_f64(raw: Seq<u64>, emax: int) -> Seq<i64> {
    Seq::new(raw.len(), |j: int| cast_value_f64(raw[j], emax) as i64)
}

/// The patterns of a block of integers scaled by `2^(emax - 62)`.
pub open spec fn inv_cast_block_f64(ib: Seq<i64>, emax: int) -> Seq<u64> {
    Seq::new(ib.len(), |j: int| inv_cast_bits_f64(ib[j] as int, emax))
}

/// The block as two's complement integers.
pub open spec fn tc_block_f64(raw: Seq<u64>) -> Seq<i64> {
    Seq::new(raw.len(), |j: int| tc_value_f64(raw[j]) as i64)
}

/// The patterns of a block of two's complement integers.
pub open spec fn untc_block_f64(ib: Seq<i64>) -> Seq<u64> {
    Seq::new(ib.len(), |j: int| untc_bits_f64(ib[j] as int))
}

/// Every value of the block is a pattern of 64 bits.
pub open spec fn patterns_f64(raw: Seq<u64>) -> bool {
    forall|j: int| 0 <= j < raw.len() ==> #[trigger] raw[j] < 0x8000_0000_0000_0000 * 2
}

fn max_magnitude_f64(raw: &[u64]) -> (m: u64)
    requires
        patterns_f64(raw@),
    ensures
        m == max_mag_f64(raw@, raw@.len() as int),
        m < 0x8000_0000_0000_0000,
{
    let mut m: u64 = 0;
    let mut k: usize = 0;
    while k < raw.len()
        invariant
            k <= raw@.len(),
            m == max_mag_f64(raw@, k as int),
            m < 0x8000_0000_0000_0000,
        decreases raw@.len() - k,
    {
        let r = raw[k];
        let nan = (r / 0x10_0000_0000_0000) % 2048 == 2047 && r % 0x10_0000_0000_0000 != 0;
        let mag = r % 0x8000_0000_0000_0000;
        if !(nan || mag <= m) {
            m = mag;
        }
        k = k + 1;
    }
    m
}

/// The common exponent of a block.
pub fn block_emax_f64(raw: &[u64]) -> (e: i32)
    requires
        patterns_f64(raw@),
    ensures
        e == spec_block_emax_f64(raw@),
        -1023 <= e <= 2047 - 1023,
{
    let m = max_magnitude_f64(raw);
    if m == 0 {
        -1023
    } else if m / 0x10_0000_0000_0000 == 2047 {
        0
    } else if m / 0x10_0000_0000_0000 == 0 {
        -1022
    } else {
        (m / 0x10_0000_0000_0000) as i32 - 1022
    }
}

/// The integer a value becomes relative to the block exponent `emax`.
fn cast_value_exec_f64(r: u64, emax: i32) -> (v: i64)
    requires
        r < 0x8000_0000_0000_0000 * 2,
        -1023 <= emax <= 2047 - 1022,
    ensures
        v == cast_value_f64(r, emax as int),
{
    let ef = (r / 0x10_0000_0000_0000) % 2048;
    if emax < -961 || ef == 2047 {
        return i64::MIN;
    }
    let frac = r % 0x10_0000_0000_0000;
    let mant: u64 = if ef == 0 { frac } else { frac + 0x10_0000_0000_0000 };
    let efx: i32 = if ef == 0 { 1 } else { ef as i32 };
    let sh: i32 = efx - 1075 + 62 - emax;
    let neg = (r / 0x8000_0000_0000_0000) % 2 == 1;
    let m: u64 = if sh >= 0 {
        if mant == 0 {
            0
        } else if sh >= 63 {
            proof {
                lemma_pow2_64();
                if sh > 63 {
                    lemma_pow2_strictly_increases(63, sh as nat);
                }
                assert(pow2(63) == 0x8000_0000_0000_0000) by {
                    lemma2_to64();
                }
                assert(mant * pow2(sh as nat) >= pow2(sh as nat)) by (nonlinear_arith)
                    requires
                        mant >= 1,
                ;
            }
            return i64::MIN;
        } else {
            let pw = pow2_exec(sh as u32);
            proof {
                lemma_pow2_64();
                lemma2_to64();
                vstd::arithmetic::power2::lemma2_to64_rest();
                if sh < 63 - 1 {
                    lemma_pow2_strictly_increases(sh as nat, (63 - 1) as nat);
                }
                assert(mant * pw <= 0x40_0000_0000_0000 * 0x4000_0000_0000_0000) by (nonlinear_arith)
                    requires
                        mant <= 0x40_0000_0000_0000,
                        pw <= 0x4000_0000_0000_0000,
                ;
            }
            let prod: u128 = (mant as u128) * (pw as u128);
            if prod >= 0x8000_0000_0000_0000 as u128 {
                return i64::MIN;
            }
            prod as u64
        }
    } else if sh <= -64 {
        proof {
            lemma_pow2_64();
            if sh < -64 {
                lemma_pow2_strictly_increases(64, (-sh) as nat);
            }
            vstd::arithmetic::div_mod::lemma_basic_div(mant as int, pow2((-sh) as nat) as int);
        }
        0
    } else {
        let pw = pow2_exec((0 - sh) as u32);
        proof {
            lemma_pow2_pos((-sh) as nat);
        }
        mant / pw
    };
    if m >= 0x8000_0000_0000_0000 {
        i64::MIN
    } else if neg {
        0 - (m as i64)
    } else {
        m as i64
    }
}

/// The block as integers relative to its exponent.
pub fn fwd_cast_f64(raw: &[u64], emax: i32) -> (ib: Vec<i64>)
    requires
        patterns_f64(raw@),
        -1023 <= emax <= 2047 - 1022,
    ensures
        ib@ == cast_block_f64(raw@, emax as int),
{
    let mut ib: Vec<i64> = Vec::new();
    let mut k: usize = 0;
    while k < raw.len()
        invariant
            k <= raw@.len(),
            patterns_f64(raw@),
            -1023 <= emax <= 2047 - 1022,
            ib@ == cast_block_f64(raw@, emax as int).take(k as int),
        decreases raw@.len() - k,
    {
        let v = cast_value_exec_f64(raw[k], emax);
        proof {
            assert(cast_block_f64(raw@, emax as int).take(k + 1) =~= cast_block_f64(raw@, emax as int).take(k as int).push(v));
        }
        ib.push(v);
        k = k + 1;
    }
    proof {
        assert(cast_block_f64(raw@, emax as int).take(k as int) =~= cast_block_f64(raw@, emax as int));
    }
    ib
}

/// The pattern of `2^(emax - 62) * i`.
pub fn inv_cast_value_f64(i: i64, emax: i32) -> (r: u64)
    requires
        -1023 <= emax <= 2047 - 1023,
    ensures
        r == inv_cast_bits_f64(i as int, emax as int),
{
    let k: i32 = emax - 62;
    if k < -1074 {
        return if i < 0 { 0x8000_0000_0000_0000 } else { 0 };
    }
    let a: u64 = if i < 0 { (0 - (i as i128)) as u64 } else { i as u64 };
    let fi = round_float_bits(a, 0, 52, 1023, 2047);
    if fi == 0 {
        return 0;
    }
    proof {
        lemma2_to64();
        lemma_pow2_adds(32, 20);
    }
    let ef = fi / 0x10_0000_0000_0000;
    let mant = fi % 0x10_0000_0000_0000 + 0x10_0000_0000_0000;
    let b = round_float_bits(mant, ef as i32 - 1075 + k, 52, 1023, 2047);
    if i < 0 {
        b + 0x8000_0000_0000_0000
    } else {
        b
    }
}

/// The bits of a block of double-precision values coded lossily: a zero bit
/// when no plane is kept (padded to `minbits`); otherwise a one bit, the
/// biased block exponent in 11 bits, and the block cast to integers, coded
/// as an integer block within the remaining budget.
pub open spec fn lossy_float_bits_f64(raw: Seq<u64>, d: nat, minbits: u32, maxbits: u32, maxprec: u32, minexp: i32) -> Seq<bool> {
    let emax = spec_block_emax_f64(raw);
    let prec = float_precision(emax, maxprec, minexp, d);
    let e = if prec != 0 {
        emax + 1023
    } else {
        0
    };
    if e != 0 {
        low_bits((2 * e + 1) as u64, 12) + lossy_int_bits_i64(
            cast_block_f64(raw, emax),
            d,
            sat_sub(minbits, 12),
            sat_sub(maxbits, 12),
            prec,
        )
    } else {
        pad_bits(seq![false], minbits as int)
    }
}

/// The block of double-precision patterns and the bit count that lossy
/// decoding reads from `src`.
pub open spec fn lossy_float_decode_f64(
    src: spec_fn(int) -> bool,
    d: nat,
    minbits: u32,
    maxbits: u32,
    maxprec: u32,
    minexp: i32,
) -> (Seq<u64>, int) {
    if src(0) {
        let emax = bits_value(|j: int| src(1 + j), 0, 11) - 1023;
        let prec = float_precision(emax, maxprec, minexp, d);
        let dec = lossy_int_decode_i64(
            |j: int| src(12 + j),
            d,
            sat_sub(minbits, 12),
            sat_sub(maxbits, 12),
            prec,
        );
        (inv_cast_block_f64(dec.0, emax), 12 + dec.1)
    } else {
        (Seq::new(pow4n(d) as nat, |j: int| 0u64), if minbits > 1 {
            minbits as int
        } else {
            1
        })
    }
}

/// Code a block of `4^d` double-precision patterns lossily; return the bits written.
#[verifier::rlimit(50)]
#[verifier::spinoff_prover]
pub fn encode_lossy_float_block_f64<S: ZfpBitStreamMutOps>(
    bs: &mut S,
    raw: &[u64],
    d: usize,
    minbits: u32,
    maxbits: u32,
    maxprec: u32,
    minexp: i32,
) -> (r: u64)
    requires
        old(bs).spec_state().wf(),
        1 <= d <= 4,
        raw@.len() == pow4n(d as nat),
        patterns_f64(raw@),
        has_room(
            old(bs).spec_state(),
            old(bs).spec_words(),
            lossy_float_bits_f64(raw@, d as nat, minbits, maxbits, maxprec, minexp).len() as int,
        ),
    ensures
        final(bs).spec_state().wf(),
        final(bs).spec_words().len() == old(bs).spec_words().len(),
        final(bs).spec_state().written(final(bs).spec_words()) == old(bs).spec_state().written(old(bs).spec_words())
            + lossy_float_bits_f64(raw@, d as nat, minbits, maxbits, maxprec, minexp),
        r == lossy_float_bits_f64(raw@, d as nat, minbits, maxbits, maxprec, minexp).len(),
{
    let emax = block_emax_f64(raw);
    let prec = float_precision_exec(emax, maxprec, minexp, d);
    let e: u32 = if prec != 0 { (emax + 1023) as u32 } else { 0 };
    let ghost w0 = bs.spec_state().written(bs.spec_words());
    let ghost total = lossy_float_bits_f64(raw@, d as nat, minbits, maxbits, maxprec, minexp);
    proof {
        assert(w0.len() == bs.spec_state().write_offset());
    }
    if e != 0 {
        let ib = fwd_cast_f64(raw, emax);
        let ghost ints = lossy_int_bits_i64(ib@, d as nat, sat_sub(minbits, 12), sat_sub(maxbits, 12), prec);
        proof {
            assert(total == low_bits((2 * e + 1) as u64, 12) + ints);
        }
        bs.write_bits((2 * e + 1) as u64, 12);
        let n = encode_int_block_i64(
            bs,
            ib.as_slice(),
            d,
            sat_sub_exec(minbits, 12),
            sat_sub_exec(maxbits, 12),
            prec,
        );
        proof {
            assert(w0 + low_bits((2 * e + 1) as u64, 12) + ints =~= w0 + total);
        }
        12 as u64 + n as u64
    } else {
        write_empty_block(bs, minbits) as u64
    }
}

/// Decode a block of `4^d` double-precision patterns coded lossily; return the bits read.
#[verifier::rlimit(50)]
#[verifier::spinoff_prover]
pub fn decode_lossy_float_block_f64<S: ZfpBitStreamOps>(
    bs: &mut S,
    out: &mut [u64],
    d: usize,
    minbits: u32,
    maxbits: u32,
    maxprec: u32,
    minexp: i32,
    Ghost(src): Ghost<spec_fn(int) -> bool>,
) -> (r: u64)
    requires
        old(bs).spec_state().wf(),
        1 <= d <= 4,
        old(out)@.len() == pow4n(d as nat),
        forall|j: int| 0 <= j ==> #[trigger] old(bs).spec_state().pending(old(bs).spec_words(), j) == src(j),
    ensures
        ({
            let dec = lossy_float_decode_f64(src, d as nat, minbits, maxbits, maxprec, minexp);
            &&& final(out)@ == dec.0
            &&& r == dec.1
            &&& forall|j: int| 0 <= j ==> #[trigger] final(bs).spec_state().pending(final(bs).spec_words(), j) == src(r + j)
        }),
        final(bs).spec_state().wf(),
        final(bs).spec_words() == old(bs).spec_words(),
        final(out)@.len() == old(out)@.len(),
        reads_within(old(bs).spec_words(), old(bs).spec_state(), r as int) ==> final(bs).spec_state().read_offset()
            == old(bs).spec_state().read_offset() + r,
{
    let ghost w = bs.spec_words();
    let ghost sa = bs.spec_state();
    let n = out.len();
    let b = bs.read_bit();
    let ghost sb = bs.spec_state();
    if b == 1 {
        let ghost s1 = |j: int| src(1 + j);
        let v = read_value(bs, 11, Ghost(s1));
        let ghost sc = bs.spec_state();
        proof {
            bits_value_bound(s1, 0, 11);
            lemma2_to64();
            vstd::bits::lemma_u64_shl_is_mul(1, 11);
        }
        let emax: i32 = v as i32 - 1023;
        let prec = float_precision_exec(emax, maxprec, minexp, d);
        let mut ib: Vec<i64> = Vec::new();
        let mut k: usize = 0;
        while k < n
            invariant
                k <= n,
                ib@.len() == k,
            decreases n - k,
        {
            ib.push(0);
            k = k + 1;
        }
        let ghost s2 = |j: int| src(12 + j);
        let bits = decode_int_block_i64(
            bs,
            ib.as_mut_slice(),
            d,
            sat_sub_exec(minbits, 12),
            sat_sub_exec(maxbits, 12),
            prec,
            Ghost(s2),
        );
        let mut k: usize = 0;
        while k < n
            invariant
                k <= n,
                n == out@.len(),
                n == ib@.len(),
                -1023 <= emax <= 2047 - 1023,
                forall|j: int| 0 <= j < k ==> #[trigger] out@[j] == inv_cast_bits_f64(ib@[j] as int, emax as int),
            decreases n - k,
        {
            out[k] = inv_cast_value_f64(ib[k], emax);
            k = k + 1;
        }
        proof {
            assert(out@ =~= inv_cast_block_f64(ib@, emax as int));
            if reads_within(w, sa, 12 + bits) {
                lemma_reads_within(w, sa, 12 + bits, 1);
                assert(reads_within(w, sb, 11 as int));
                assert(reads_within(w, sc, bits as int));
            }
        }
        12 as u64 + bits as u64
    } else {
        let mut k: usize = 0;
        while k < n
            invariant
                k <= n,
                n == out@.len(),
                forall|j: int| 0 <= j < k ==> #[trigger] out@[j] == 0u64,
            decreases n - k,
        {
            out[k] = 0;
            k = k + 1;
        }
        proof {
            assert(out@ =~= Seq::new(pow4n(d as nat) as nat, |j: int| 0u64));
        }
        proof {
            let tot: int = if minbits > 1 { minbits as int } else { 1 };
            if reads_within(w, sa, tot) {
                lemma_reads_within(w, sa, tot, 1);
                assert(reads_within(w, sb, tot - 1));
            }
        }
        if minbits > 1 {
            discard_bits(bs, minbits - 1);
            minbits as u64
        } else {
            1
        }
    }
}

/// Whether casting the block to integers relative to `emax` and back gives
/// every pattern back.
pub open spec fn bfp_exact_f64(raw: Seq<u64>, ib: Seq<i64>, emax: int) -> bool {
    forall|j: int| 0 <= j < raw.len() ==> #[trigger] inv_cast_bits_f64(ib[j] as int, emax) == raw[j]
}

/// The integers a reversible block tries first: the cast relative to the
/// block exponent, or zeros for a block without a nonzero value.
pub open spec fn rev_ints_f64(raw: Seq<u64>, emax: int) -> Seq<i64> {
    if emax + 1023 != 0 {
        cast_block_f64(raw, emax)
    } else {
        Seq::new(raw.len(), |j: int| 0i64)
    }
}

/// The bits of a block of double-precision values coded reversibly: a zero
/// bit for a block of positive zeros; `1, 0`, the biased exponent in 11 bits
/// and the integer block when the cast to integers is exact; otherwise `1, 1`
/// and the patterns as two's complement integers.
pub open spec fn rev_float_bits_f64(raw: Seq<u64>, d: nat, maxbits: u32) -> Seq<bool> {
    let emax = spec_block_emax_f64(raw);
    let e = emax + 1023;
    let ib = rev_ints_f64(raw, emax);
    if bfp_exact_f64(raw, ib, emax) {
        if e != 0 {
            low_bits(1, 2) + low_bits(e as u64, 11) + rev_int_bits_i64(ib, d, sat_sub(maxbits, 13))
        } else {
            seq![false]
        }
    } else {
        low_bits(3, 2) + rev_int_bits_i64(tc_block_f64(raw), d, sat_sub(maxbits, 2))
    }
}

/// The block of double-precision patterns and the bit count that reversible
/// decoding reads from `src`.
pub open spec fn rev_float_decode_f64(src: spec_fn(int) -> bool, d: nat, maxbits: u32) -> (Seq<u64>, int) {
    if !src(0) {
        (Seq::new(pow4n(d) as nat, |j: int| 0u64), 1)
    } else if src(1) {
        let dec = rev_int_decode_i64(|j: int| src(2 + j), d, sat_sub(maxbits, 2));
        (untc_block_f64(dec.0), 2 + dec.1)
    } else {
        let emax = bits_value(|j: int| src(2 + j), 0, 11) - 1023;
        let dec = rev_int_decode_i64(|j: int| src(13 + j), d, sat_sub(maxbits, 13));
        (inv_cast_block_f64(dec.0, emax), 13 + dec.1)
    }
}

fn bfp_check_f64(raw: &[u64], ib: &[i64], emax: i32) -> (r: bool)
    requires
        raw@.len() == ib@.len(),
        -1023 <= emax <= 2047 - 1023,
    ensures
        r == bfp_exact_f64(raw@, ib@, emax as int),
{
    let mut k: usize = 0;
    while k < raw.len()
        invariant
            k <= raw@.len(),
            raw@.len() == ib@.len(),
            -1023 <= emax <= 2047 - 1023,
            forall|j: int| 0 <= j < k ==> #[trigger] inv_cast_bits_f64(ib@[j] as int, emax as int) == raw@[j],
        decreases raw@.len() - k,
    {
        if inv_cast_value_f64(ib[k], emax) != raw[k] {
            return false;
        }
        k = k + 1;
    }
    true
}

fn tc_block_exec_f64(raw: &[u64]) -> (ib: Vec<i64>)
    requires
        patterns_f64(raw@),
    ensures
        ib@ == tc_block_f64(raw@),
{
    let mut ib: Vec<i64> = Vec::new();
    let mut k: usize = 0;
    while k < raw.len()
        invariant
            k <= raw@.len(),
            patterns_f64(raw@),
            ib@ == tc_block_f64(raw@).take(k as int),
        decreases raw@.len() - k,
    {
        let r = raw[k];
        let mag = r % 0x8000_0000_0000_0000;
        let v: i64 = if (r / 0x8000_0000_0000_0000) % 2 == 1 {
            0 - 1 - (mag as i64)
        } else {
            mag as i64
        };
        proof {
            assert(tc_block_f64(raw@).take(k + 1) =~= tc_block_f64(raw@).take(k as int).push(v));
        }
        ib.push(v);
        k = k + 1;
    }
    proof {
        assert(tc_block_f64(raw@).take(k as int) =~= tc_block_f64(raw@));
    }
    ib
}

/// Code a block of `4^d` double-precision patterns reversibly; return the bits written.
#[verifier::rlimit(50)]
#[verifier::spinoff_prover]
pub fn encode_rev_float_block_f64<S: ZfpBitStreamMutOps>(bs: &mut S, raw: &[u64], d: usize, maxbits: u32) -> (r: usize)
    requires
        old(bs).spec_state().wf(),
        1 <= d <= 4,
        raw@.len() == pow4n(d as nat),
        patterns_f64(raw@),
        has_room(old(bs).spec_state(), old(bs).spec_words(), rev_float_bits_f64(raw@, d as nat, maxbits).len() as int),
    ensures
        final(bs).spec_state().wf(),
        final(bs).spec_words().len() == old(bs).spec_words().len(),
        final(bs).spec_state().written(final(bs).spec_words()) == old(bs).spec_state().written(old(bs).spec_words())
            + rev_float_bits_f64(raw@, d as nat, maxbits),
        r == rev_float_bits_f64(raw@, d as nat, maxbits).len(),
{
    let emax = block_emax_f64(raw);
    let e: u32 = (emax + 1023) as u32;
    let ib: Vec<i64> = if e != 0 {
        fwd_cast_f64(raw, emax)
    } else {
        let mut z: Vec<i64> = Vec::new();
        let mut k: usize = 0;
        while k < raw.len()
            invariant
                k <= raw@.len(),
                z@ == Seq::new(k as nat, |j: int| 0i64),
            decreases raw@.len() - k,
        {
            z.push(0);
            k = k + 1;
            proof {
                assert(z@ =~= Seq::new(k as nat, |j: int| 0i64));
            }
        }
        z
    };
    proof {
        assert(ib@ == rev_ints_f64(raw@, emax as int));
    }
    let ghost w0 = bs.spec_state().written(bs.spec_words());
    let ghost total = rev_float_bits_f64(raw@, d as nat, maxbits);
    proof {
        assert(w0.len() == bs.spec_state().write_offset());
    }
    if bfp_check_f64(raw, ib.as_slice(), emax) {
        if e != 0 {
            let ghost ints = rev_int_bits_i64(ib@, d as nat, sat_sub(maxbits, 13));
            proof {
                assert(total == low_bits(1, 2) + low_bits(e as u64, 11) + ints);
            }
            bs.write_bits(1, 2);
            bs.write_bits(e as u64, 11);
            let n = encode_rev_int_block_i64(bs, ib.as_slice(), d, sat_sub_exec(maxbits, 13));
            proof {
                assert(w0 + low_bits(1, 2) + low_bits(e as u64, 11) + ints =~= w0 + total);
            }
            13 + n
        } else {
            bs.write_bit(0);
            proof {
                assert(w0.push(false) =~= w0 + total);
            }
            1
        }
    } else {
        let tc = tc_block_exec_f64(raw);
        let ghost ints = rev_int_bits_i64(tc@, d as nat, sat_sub(maxbits, 2));
        proof {
            assert(total == low_bits(3, 2) + ints);
        }
        bs.write_bits(3, 2);
        let n = encode_rev_int_block_i64(bs, tc.as_slice(), d, sat_sub_exec(maxbits, 2));
        proof {
            assert(w0 + low_bits(3, 2) + ints =~= w0 + total);
        }
        2 + n
    }
}

/// Decode a block of `4^d` double-precision patterns coded reversibly; return the bits read.
#[verifier::rlimit(50)]
#[verifier::spinoff_prover]
pub fn decode_rev_float_block_f64<S: ZfpBitStreamOps>(
    bs: &mut S,
    out: &mut [u64],
    d: usize,
    maxbits: u32,
    Ghost(src): Ghost<spec_fn(int) -> bool>,
) -> (r: usize)
    requires
        old(bs).spec_state().wf(),
        1 <= d <= 4,
        old(out)@.len() == pow4n(d as nat),
        forall|j: int| 0 <= j ==> #[trigger] old(bs).spec_state().pending(old(bs).spec_words(), j) == src(j),
    ensures
        ({
            let dec = rev_float_decode_f64(src, d as nat, maxbits);
            &&& final(out)@ == dec.0
            &&& r == dec.1
            &&& forall|j: int| 0 <= j ==> #[trigger] final(bs).spec_state().pending(final(bs).spec_words(), j) == src(r + j)
        }),
        final(bs).spec_state().wf(),
        final(bs).spec_words() == old(bs).spec_words(),
        final(out)@.len() == old(out)@.len(),
        reads_within(old(bs).spec_words(), old(bs).spec_state(), r as int) ==> final(bs).spec_state().read_offset()
            == old(bs).spec_state().read_offset() + r,
{
    let ghost w = bs.spec_words();
    let ghost sa = bs.spec_state();
    let n = out.len();
    let b0 = bs.read_bit();
    let ghost sb = bs.spec_state();
    if b0 == 0 {
        let mut k: usize = 0;
        while k < n
            invariant
                k <= n,
                n == out@.len(),
                forall|j: int| 0 <= j < k ==> #[trigger] out@[j] == 0u64,
            decreases n - k,
        {
            out[k] = 0;
            k = k + 1;
        }
        proof {
            assert(out@ =~= Seq::new(pow4n(d as nat) as nat, |j: int| 0u64));
            if reads_within(w, sa, 1) {
                lemma_reads_within(w, sa, 1, 1);
            }
        }
        return 1;
    }
    let b1 = bs.read_bit();
    let ghost sc = bs.spec_state();
    let mut ib: Vec<i64> = Vec::new();
    let mut k: usize = 0;
    while k < n
        invariant
            k <= n,
            ib@.len() == k,
        decreases n - k,
    {
        ib.push(0);
        k = k + 1;
    }
    if b1 == 1 {
        let ghost s2 = |j: int| src(2 + j);
        let bits = decode_rev_int_block_i64(bs, ib.as_mut_slice(), d, sat_sub_exec(maxbits, 2), Ghost(s2));
        let mut k: usize = 0;
        while k < n
            invariant
                k <= n,
                n == out@.len(),
                n == ib@.len(),
                forall|j: int| 0 <= j < k ==> #[trigger] out@[j] == untc_bits_f64(ib@[j] as int),
            decreases n - k,
        {
            let i = ib[k];
            out[k] = if i < 0 {
                0x8000_0000_0000_0000 + ((0 - 1 - (i as i128)) as u64)
            } else {
                i as u64
            };
            k = k + 1;
        }
        proof {
            assert(out@ =~= untc_block_f64(ib@));
            if reads_within(w, sa, 2 + bits) {
                lemma_reads_within(w, sa, 2 + bits, 1);
                lemma_reads_within(w, sb, 1 + bits, 1);
                assert(reads_within(w, sc, bits as int));
            }
        }
        2 + bits
    } else {
        let ghost s1 = |j: int| src(2 + j);
        let v = read_value(bs, 11, Ghost(s1));
        let ghost sd = bs.spec_state();
        proof {
            bits_value_bound(s1, 0, 11);
            lemma2_to64();
            vstd::bits::lemma_u64_shl_is_mul(1, 11);
        }
        let emax: i32 = v as i32 - 1023;
        let ghost s3 = |j: int| src(13 + j);
        let bits = decode_rev_int_block_i64(bs, ib.as_mut_slice(), d, sat_sub_exec(maxbits, 13), Ghost(s3));
        let mut k: usize = 0;
        while k < n
            invariant
                k <= n,
                n == out@.len(),
                n == ib@.len(),
                -1023 <= emax <= 2047 - 1023,
                forall|j: int| 0 <= j < k ==> #[trigger] out@[j] == inv_cast_bits_f64(ib@[j] as int, emax as int),
            decreases n - k,
        {
            out[k] = inv_cast_value_f64(ib[k], emax);
            k = k + 1;
        }
        proof {
            assert(out@ =~= inv_cast_block_f64(ib@, emax as int));
            if reads_within(w, sa, 13 + bits) {
                lemma_reads_within(w, sa, 13 + bits, 1);
                lemma_reads_within(w, sb, 13 - 1 + bits, 1);
                assert(reads_within(w, sc, 11 + bits));
                assert(reads_within(w, sd, bits as int));
            }
        }
        13 + bits
    }
}

proof fn lemma_max_mag_bound_f64(raw: Seq<u64>, k: int)
    requires
        patterns_f64(raw),
        k <= raw.len(),
    ensures
        0 <= max_mag_f64(raw, k) < 0x8000_0000_0000_0000,
    decreases k,
{
    if k > 0 {
        lemma_max_mag_bound_f64(raw, k - 1);
    }
}

pub(crate) proof fn lemma_block_emax_range_f64(raw: Seq<u64>)
    requires
        patterns_f64(raw),
    ensures
        -1023 <= spec_block_emax_f64(raw) <= 2047 - 1023,
{
    lemma_max_mag_bound_f64(raw, raw.len() as int);
}

/// Reversible coding of a block of double-precision values is lossless:
/// decoding the bits that coding wrote gives back every pattern, and reads
/// exactly those bits.
#[verifier::rlimit(50)]
#[verifier::spinoff_prover]
pub proof fn lemma_rev_float_roundtrip_f64(raw: Seq<u64>, d: nat, maxbits: u32, src: spec_fn(int) -> bool)
    requires
        1 <= d <= 4,
        raw.len() == pow4n(d),
        patterns_f64(raw),
        maxbits >= 17000,
        forall|t: int| 0 <= t < rev_float_bits_f64(raw, d, maxbits).len() ==> src(t) == #[trigger] rev_float_bits_f64(raw, d, maxbits)[t],
    ensures
        rev_float_decode_f64(src, d, maxbits) == (raw, rev_float_bits_f64(raw, d, maxbits).len() as int),
{
    let all = rev_float_bits_f64(raw, d, maxbits);
    let emax = spec_block_emax_f64(raw);
    let e = emax + 1023;
    let ib = rev_ints_f64(raw, emax);
    lemma_block_emax_range_f64(raw);
    header_bit_values();
    if bfp_exact_f64(raw, ib, emax) {
        if e != 0 {
            let ints = rev_int_bits_i64(ib, d, sat_sub(maxbits, 13));
            assert(all == low_bits(1, 2) + low_bits(e as u64, 11) + ints);
            assert(src(0) == all[0] && src(1) == all[1]);
            let s1 = |j: int| src(2 + j);
            assert forall|j: int| 0 <= j < 11 implies #[trigger] s1(0 + j) == crate::codec::embedded::plane_bit(e as u64, j) by {
                assert(src(2 + j) == all[2 + j]);
            }
            lemma2_to64();
            vstd::bits::lemma_u64_shr_is_div(e as u64, 11);
            crate::codec::block::lemma_read_value(s1, 0, e as u64, 11);
            let s3 = |j: int| src(13 + j);
            assert forall|t: int| 0 <= t < ints.len() implies s3(t) == #[trigger] ints[t] by {
                assert(src(13 + t) == all[13 + t]);
            }
            crate::codec::block::lemma_rev_int_block_roundtrip_i64(ib, d, sat_sub(maxbits, 13), s3);
            let dec = rev_int_decode_i64(s3, d, sat_sub(maxbits, 13));
            assert(inv_cast_block_f64(dec.0, emax) =~= raw);
        } else {
            assert(src(0) == all[0]);
            assert forall|j: int| 0 <= j < raw.len() implies raw[j] == 0u64 by {
                assert(inv_cast_bits_f64(ib[j] as int, emax) == raw[j]);
            }
            assert(raw =~= Seq::new(pow4n(d) as nat, |j: int| 0u64));
        }
    } else {
        let tc = tc_block_f64(raw);
        let ints = rev_int_bits_i64(tc, d, sat_sub(maxbits, 2));
        assert(all == low_bits(3, 2) + ints);
        assert(src(0) == all[0] && src(1) == all[1]);
        let s2 = |j: int| src(2 + j);
        assert forall|t: int| 0 <= t < ints.len() implies s2(t) == #[trigger] ints[t] by {
            assert(src(2 + t) == all[2 + t]);
        }
        crate::codec::block::lemma_rev_int_block_roundtrip_i64(tc, d, sat_sub(maxbits, 2), s2);
        assert forall|j: int| 0 <= j < raw.len() implies #[trigger] untc_bits_f64(tc[j] as int) == raw[j] by {
            assert(raw[j] < 0x8000_0000_0000_0000 * 2);
        }
        assert(untc_block_f64(tc) =~= raw);
    }
}

} // verus!
