//! Compression parameters: the four expert parameters, the mode they select,
//! and the compact mode word stored in a stream header.
//!
//! A configuration is `(min_bits, max_bits, max_prec, min_exp)`: the least and
//! most bits a block may take, the most bit planes coded, and the smallest
//! bit-plane exponent coded. The named modes (fixed rate, fixed precision,
//! fixed accuracy, reversible) are particular choices of these four values.

use vstd::prelude::*;
use crate::types::{
    ZfpDimensionality, ZfpMode, ZfpScalarType, ZFP_MAX_BITS, ZFP_MAX_PREC, ZFP_MIN_BITS,
    ZFP_MIN_EXP,
};

verus! {

/// Number of bytes per stream word.
pub const STREAM_WORD_BYTES: usize = 8;

/// Number of bits per stream word.
pub const STREAM_WORD_BITS: u32 = 64;

/// Largest mode word that uses the short (12-bit) form.
pub const MODE_SHORT_MAX: u64 = 4094;

/// Whether fixed-rate blocks are padded to a 64-bit word boundary.
#[derive(Debug, Clone, Copy, PartialEq, Eq, Structural, Hash)]
pub enum ZfpStreamAlignment {
    /// Blocks use exactly the computed bit count.
    Packed,
    /// Each block is padded to the next 64-bit word boundary.
    WordAligned,
}

/// The mode selected by four expert parameters.
pub open spec fn spec_mode(min_bits: u32, max_bits: u32, max_prec: u32, min_exp: i32) -> ZfpMode {
    if min_bits > max_bits || !(0 < max_prec && max_prec <= 64) {
        ZfpMode::Null
    } else if min_bits == ZFP_MIN_BITS && max_bits == ZFP_MAX_BITS && max_prec == ZFP_MAX_PREC
        && min_exp == ZFP_MIN_EXP {
        ZfpMode::Expert
    } else if min_bits == max_bits && 1 <= max_bits <= ZFP_MAX_BITS && max_prec >= ZFP_MAX_PREC
        && min_exp == ZFP_MIN_EXP {
        ZfpMode::FixedRate
    } else if min_bits <= ZFP_MIN_BITS && max_bits >= ZFP_MAX_BITS && max_prec >= 1 && min_exp
        == ZFP_MIN_EXP {
        ZfpMode::FixedPrecision
    } else if min_bits <= ZFP_MIN_BITS && max_bits >= ZFP_MAX_BITS && max_prec >= ZFP_MAX_PREC
        && min_exp >= ZFP_MIN_EXP {
        ZfpMode::FixedAccuracy
    } else if min_bits <= ZFP_MIN_BITS && max_bits >= ZFP_MAX_BITS && max_prec >= ZFP_MAX_PREC
        && min_exp < ZFP_MIN_EXP {
        ZfpMode::Reversible
    } else {
        ZfpMode::Expert
    }
}

/// `v` clamped to `[lo, hi]`.
pub open spec fn clamp_u32(v: u32, lo: u32, hi: u32) -> u32 {
    if v < lo {
        lo
    } else if v > hi {
        hi
    } else {
        v
    }
}

/// The 15-bit field that stores `min_exp` in the long mode word.
pub open spec fn spec_exp_field(min_exp: i32) -> u64 {
    let e = min_exp as int + 16495;
    (if e < 0 {
        0
    } else if e > 0x7fff {
        0x7fff
    } else {
        e
    }) as u64
}

/// The long (64-bit) mode word: 15 bits of `min_exp + 16495`, 7 bits of
/// `max_prec - 1`, 15 bits each of `max_bits - 1` and `min_bits - 1`, and
/// twelve one bits, from the top down; each field clamped to its range.
pub open spec fn spec_expert_word(min_bits: u32, max_bits: u32, max_prec: u32, min_exp: i32) -> u64 {
    let nb = (clamp_u32(min_bits, 1, 0x8000) - 1) as u64;
    let mb = (clamp_u32(max_bits, 1, 0x8000) - 1) as u64;
    let p = (clamp_u32(max_prec, 1, 0x80) - 1) as u64;
    let e = spec_exp_field(min_exp);
    (e << 49u64) | (p << 42u64) | (mb << 27u64) | (nb << 12u64) | 0xfffu64
}

/// The compact mode word of four expert parameters: a short form below 4095
/// for the named modes whose parameter fits, the long form otherwise.
pub open spec fn spec_mode_bits(min_bits: u32, max_bits: u32, max_prec: u32, min_exp: i32) -> u64 {
    let m = spec_mode(min_bits, max_bits, max_prec, min_exp);
    if m == ZfpMode::FixedRate && max_bits <= 2048 {
        (max_bits - 1) as u64
    } else if m == ZfpMode::FixedPrecision && max_prec <= 128 {
        (max_prec - 1 + 2048) as u64
    } else if m == ZfpMode::Reversible {
        2176
    } else if m == ZfpMode::FixedAccuracy && min_exp <= 843 {
        (min_exp - ZFP_MIN_EXP + 2177) as u64
    } else {
        spec_expert_word(min_bits, max_bits, max_prec, min_exp)
    }
}

/// The four parameters that a mode word stands for, before validation.
pub open spec fn spec_mode_params(encoded: u64) -> (u32, u32, u32, i32) {
    if encoded <= MODE_SHORT_MAX {
        if encoded < 2048 {
            ((encoded + 1) as u32, (encoded + 1) as u32, ZFP_MAX_PREC, ZFP_MIN_EXP)
        } else if encoded < 2048 + 128 {
            (ZFP_MIN_BITS, ZFP_MAX_BITS, (encoded + 1 - 2048) as u32, ZFP_MIN_EXP)
        } else if encoded == 2048 + 128 {
            (ZFP_MIN_BITS, ZFP_MAX_BITS, ZFP_MAX_PREC, (ZFP_MIN_EXP - 1) as i32)
        } else {
            (ZFP_MIN_BITS, ZFP_MAX_BITS, ZFP_MAX_PREC, (encoded + ZFP_MIN_EXP - 2177) as i32)
        }
    } else {
        let m = encoded >> 12u64;
        (
            ((m & 0x7fff) + 1) as u32,
            (((m >> 15u64) & 0x7fff) + 1) as u32,
            (((m >> 30u64) & 0x7f) + 1) as u32,
            (((m >> 37u64) & 0x7fff) - 16495) as i32,
        )
    }
}

/// Whether four expert parameters may form a configuration decoded from a mode word.
pub open spec fn spec_valid_params(min_bits: u32, max_bits: u32, max_prec: u32) -> bool {
    min_bits <= max_bits && 0 < max_prec <= 64
}

/// Compression parameters: bits per block, bit planes and least exponent.
#[derive(Debug, Clone, Copy, PartialEq, Eq, Structural, Hash)]
pub struct ZfpConfig {
    min_bits: u32,
    max_bits: u32,
    max_prec: u32,
    min_exp: i32,
}

/// The mode selected by four expert parameters.
pub fn compression_mode_from_params(min_bits: u32, max_bits: u32, max_prec: u32, min_exp: i32) -> (r: ZfpMode)
    ensures
        r == spec_mode(min_bits, max_bits, max_prec, min_exp),
{
    if min_bits > max_bits || !(0 < max_prec && max_prec <= 64) {
        return ZfpMode::Null;
    }
    if min_bits == ZFP_MIN_BITS && max_bits == ZFP_MAX_BITS && max_prec == ZFP_MAX_PREC && min_exp
        == ZFP_MIN_EXP {
        return ZfpMode::Expert;
    }
    if min_bits == max_bits && 1 <= max_bits && max_bits <= ZFP_MAX_BITS && max_prec >= ZFP_MAX_PREC
        && min_exp == ZFP_MIN_EXP {
        return ZfpMode::FixedRate;
    }
    if min_bits <= ZFP_MIN_BITS && max_bits >= ZFP_MAX_BITS && max_prec >= 1 && min_exp
        == ZFP_MIN_EXP {
        return ZfpMode::FixedPrecision;
    }
    if min_bits <= ZFP_MIN_BITS && max_bits >= ZFP_MAX_BITS && max_prec >= ZFP_MAX_PREC && min_exp
        >= ZFP_MIN_EXP {
        return ZfpMode::FixedAccuracy;
    }
    if min_bits <= ZFP_MIN_BITS && max_bits >= ZFP_MAX_BITS && max_prec >= ZFP_MAX_PREC && min_exp
        < ZFP_MIN_EXP {
        return ZfpMode::Reversible;
    }
    ZfpMode::Expert
}

/// The precision of fixed-precision parameters, zero for any other mode.
pub fn precision_from_params(min_bits: u32, max_bits: u32, max_prec: u32, min_exp: i32) -> (r: u32)
    ensures
        r == (if spec_mode(min_bits, max_bits, max_prec, min_exp) == ZfpMode::FixedPrecision {
            max_prec
        } else {
            0
        }),
{
    match compression_mode_from_params(min_bits, max_bits, max_prec, min_exp) {
        ZfpMode::FixedPrecision => max_prec,
        _ => 0,
    }
}

fn clamp_u32_exec(v: u32, lo: u32, hi: u32) -> (r: u32)
    ensures
        r == clamp_u32(v, lo, hi),
{
    if v < lo {
        lo
    } else if v > hi {
        hi
    } else {
        v
    }
}

proof fn expert_word_layout(e: u64, p: u64, mb: u64, nb: u64, m1: u64, m2: u64, m3: u64, m4: u64, m5: u64)
    by (bit_vector)
    requires
        e <= 0x7fff,
        p <= 0x7f,
        mb <= 0x7fff,
        nb <= 0x7fff,
        m1 == (0u64 << 15u64) | e,
        m2 == (m1 << 7u64) | p,
        m3 == (m2 << 15u64) | mb,
        m4 == (m3 << 15u64) | nb,
        m5 == (m4 << 12u64) | 0xfffu64,
    ensures
        m5 == (e << 49u64) | (p << 42u64) | (mb << 27u64) | (nb << 12u64) | 0xfffu64,
{
}

/// The long (64-bit) mode word of four expert parameters.
fn encode_expert_mode(min_bits: u32, max_bits: u32, max_prec: u32, min_exp: i32) -> (r: u64)
    ensures
        r == spec_expert_word(min_bits, max_bits, max_prec, min_exp),
{
    let nb = (clamp_u32_exec(min_bits, 1, 0x8000) - 1) as u64;
    let mb = (clamp_u32_exec(max_bits, 1, 0x8000) - 1) as u64;
    let p = (clamp_u32_exec(max_prec, 1, 0x80) - 1) as u64;
    let shifted = min_exp as i64 + 16495;
    let e: u64 = if shifted < 0 {
        0
    } else if shifted > 0x7fff {
        0x7fff
    } else {
        shifted as u64
    };
    let m1 = (0u64 << 15u64) | e;
    let m2 = (m1 << 7u64) | p;
    let m3 = (m2 << 15u64) | mb;
    let m4 = (m3 << 15u64) | nb;
    let mode = (m4 << 12u64) | 0xfffu64;
    proof {
        assert(e == spec_exp_field(min_exp));
        expert_word_layout(e, p, mb, nb, m1, m2, m3, m4, mode);
    }
    mode
}

/// The compact mode word of four expert parameters.
pub fn mode_bits_from_params(min_bits: u32, max_bits: u32, max_prec: u32, min_exp: i32) -> (r: u64)
    ensures
        r == spec_mode_bits(min_bits, max_bits, max_prec, min_exp),
{
    match compression_mode_from_params(min_bits, max_bits, max_prec, min_exp) {
        ZfpMode::FixedRate => {
            if max_bits <= 2048 {
                (max_bits - 1) as u64
            } else {
                encode_expert_mode(min_bits, max_bits, max_prec, min_exp)
            }
        },
        ZfpMode::FixedPrecision => {
            if max_prec <= 128 {
                (max_prec - 1) as u64 + 2048
            } else {
                encode_expert_mode(min_bits, max_bits, max_prec, min_exp)
            }
        },
        ZfpMode::Reversible => 2048 + 128,
        ZfpMode::FixedAccuracy => {
            if min_exp <= 843 {
                (min_exp - ZFP_MIN_EXP) as u64 + (2048 + 128 + 1)
            } else {
                encode_expert_mode(min_bits, max_bits, max_prec, min_exp)
            }
        },
        _ => encode_expert_mode(min_bits, max_bits, max_prec, min_exp),
    }
}

impl ZfpConfig {
    /// Minimum bits per block.
    pub closed spec fn spec_min_bits(self) -> u32 {
        self.min_bits
    }

    /// Maximum bits per block.
    pub closed spec fn spec_max_bits(self) -> u32 {
        self.max_bits
    }

    /// Maximum number of bit planes coded.
    pub closed spec fn spec_max_prec(self) -> u32 {
        self.max_prec
    }

    /// Smallest bit-plane exponent coded.
    pub closed spec fn spec_min_exp(self) -> i32 {
        self.min_exp
    }

    /// The configuration made of four parameters.
    pub open spec fn spec_params(self) -> (u32, u32, u32, i32) {
        (self.spec_min_bits(), self.spec_max_bits(), self.spec_max_prec(), self.spec_min_exp())
    }

    /// A configuration is its four parameters: two with the same parameters
    /// are the same configuration.
    pub proof fn lemma_params_eq(a: ZfpConfig, b: ZfpConfig)
        requires
            a.spec_params() == b.spec_params(),
        ensures
            a == b,
    {
    }

    /// The mode this configuration selects.
    pub open spec fn spec_compression_mode(self) -> ZfpMode {
        spec_mode(self.spec_min_bits(), self.spec_max_bits(), self.spec_max_prec(), self.spec_min_exp())
    }

    /// The mode word of this configuration.
    pub open spec fn spec_mode_word(self) -> u64 {
        spec_mode_bits(self.spec_min_bits(), self.spec_max_bits(), self.spec_max_prec(), self.spec_min_exp())
    }

    /// The configuration a mode word decodes to: `None` when the decoded
    /// parameters are invalid.
    pub open spec fn spec_from_mode(encoded: u64) -> Option<(u32, u32, u32, i32)> {
        let p = spec_mode_params(encoded);
        if spec_valid_params(p.0, p.1, p.2) {
            Some(p)
        } else {
            None
        }
    }

    /// Decode a mode word; `None` when the decoded parameters are invalid
    /// (more bits below than above, or a precision outside `1..=64`).
    pub fn from_mode(encoded: u64) -> (r: Option<ZfpConfig>)
        ensures
            match r {
                Some(c) => ZfpConfig::spec_from_mode(encoded) == Some(c.spec_params()),
                None => ZfpConfig::spec_from_mode(encoded) is None,
            },
    {
        let (min_bits, max_bits, max_prec, min_exp) = if encoded <= MODE_SHORT_MAX {
            if encoded < 2048 {
                let b = encoded as u32 + 1;
                (b, b, ZFP_MAX_PREC, ZFP_MIN_EXP)
            } else if encoded < (2048 + 128) {
                let p = encoded as u32 + 1 - 2048;
                (ZFP_MIN_BITS, ZFP_MAX_BITS, p, ZFP_MIN_EXP)
            } else if encoded == (2048 + 128) {
                (ZFP_MIN_BITS, ZFP_MAX_BITS, ZFP_MAX_PREC, ZFP_MIN_EXP - 1)
            } else {
                let e = encoded as i32 + ZFP_MIN_EXP - (2048 + 128 + 1);
                (ZFP_MIN_BITS, ZFP_MAX_BITS, ZFP_MAX_PREC, e)
            }
        } else {
            let m = encoded >> 12u64;
            proof {
                assert((m & 0x7fff) <= 0x7fff && ((m >> 15u64) & 0x7fff) <= 0x7fff && ((m >> 30u64) & 0x7f)
                    <= 0x7f && ((m >> 37u64) & 0x7fff) <= 0x7fff) by (bit_vector);
            }
            let min_bits = (m & 0x7fff) as u32 + 1;
            let max_bits = ((m >> 15u64) & 0x7fff) as u32 + 1;
            let max_prec = ((m >> 30u64) & 0x7f) as u32 + 1;
            let min_exp = ((m >> 37u64) & 0x7fff) as i32 - 16495;
            (min_bits, max_bits, max_prec, min_exp)
        };
        if !(min_bits <= max_bits && 0 < max_prec && max_prec <= 64) {
            return None;
        }
        Some(ZfpConfig { min_bits, max_bits, max_prec, min_exp })
    }

    /// Fixed-rate parameters from a bit count per block: at least one sign
    /// bit and an exponent for floating-point types, rounded up to whole
    /// words when word-aligned (a count that rounds up past `u32::MAX`
    /// overflows).
    pub fn fixed_rate_bits(bits: u32, ty: ZfpScalarType, align: ZfpStreamAlignment) -> (r: ZfpConfig)
        requires
            align == ZfpStreamAlignment::WordAligned ==> bits <= u32::MAX - 63,
        ensures
            ({
                let b0 = match ty {
                    ZfpScalarType::Float => if bits < 9 { 9 } else { bits },
                    ZfpScalarType::Double => if bits < 12 { 12 } else { bits },
                    _ => bits,
                };
                let b = match align {
                    ZfpStreamAlignment::WordAligned => ((b0 as int + 63) / 64 * 64) as u32,
                    ZfpStreamAlignment::Packed => b0,
                };
                r.spec_params() == (b, b, ZFP_MAX_PREC, ZFP_MIN_EXP)
            }),
    {
        let mut b = bits;
        match ty {
            ZfpScalarType::Float => {
                if b < 1 + 8 {
                    b = 1 + 8;
                }
            },
            ZfpScalarType::Double => {
                if b < 1 + 11 {
                    b = 1 + 11;
                }
            },
            _ => {},
        }
        match align {
            ZfpStreamAlignment::WordAligned => {
                b = (b / STREAM_WORD_BITS + (if b % STREAM_WORD_BITS == 0 { 0 } else { 1 }))
                    * STREAM_WORD_BITS;
            },
            ZfpStreamAlignment::Packed => {},
        }
        ZfpConfig { min_bits: b, max_bits: b, max_prec: ZFP_MAX_PREC, min_exp: ZFP_MIN_EXP }
    }

    /// Fixed-precision parameters: `precision` bit planes, at most 64; zero means 64.
    pub fn fixed_precision(precision: u32) -> (r: ZfpConfig)
        ensures
            r.spec_params() == (ZFP_MIN_BITS, ZFP_MAX_BITS, if precision == 0 {
                ZFP_MAX_PREC
            } else if precision > ZFP_MAX_PREC {
                ZFP_MAX_PREC
            } else {
                precision
            }, ZFP_MIN_EXP),
    {
        let p = if precision > 0 {
            if precision < ZFP_MAX_PREC {
                precision
            } else {
                ZFP_MAX_PREC
            }
        } else {
            ZFP_MAX_PREC
        };
        ZfpConfig { min_bits: ZFP_MIN_BITS, max_bits: ZFP_MAX_BITS, max_prec: p, min_exp: ZFP_MIN_EXP }
    }

    /// Fixed-accuracy parameters with least coded exponent `min_exp`.
    pub fn fixed_accuracy_exponent(min_exp: i32) -> (r: ZfpConfig)
        ensures
            r.spec_params() == (ZFP_MIN_BITS, ZFP_MAX_BITS, ZFP_MAX_PREC, min_exp),
    {
        ZfpConfig { min_bits: ZFP_MIN_BITS, max_bits: ZFP_MAX_BITS, max_prec: ZFP_MAX_PREC, min_exp }
    }

    /// Reversible (lossless) parameters.
    pub fn reversible() -> (r: ZfpConfig)
        ensures
            r.spec_params() == (ZFP_MIN_BITS, ZFP_MAX_BITS, ZFP_MAX_PREC, (ZFP_MIN_EXP - 1) as i32),
    {
        ZfpConfig {
            min_bits: ZFP_MIN_BITS,
            max_bits: ZFP_MAX_BITS,
            max_prec: ZFP_MAX_PREC,
            min_exp: ZFP_MIN_EXP - 1,
        }
    }

    /// Expert parameters, taken as given.
    pub fn expert(min_bits: u32, max_bits: u32, max_prec: u32, min_exp: i32) -> (r: ZfpConfig)
        ensures
            r.spec_params() == (min_bits, max_bits, max_prec, min_exp),
    {
        ZfpConfig { min_bits, max_bits, max_prec, min_exp }
    }

    /// The default expert parameters, each at the end of its range.
    pub fn new() -> (r: ZfpConfig)
        ensures
            r.spec_params() == (ZFP_MIN_BITS, ZFP_MAX_BITS, ZFP_MAX_PREC, ZFP_MIN_EXP),
    {
        ZfpConfig {
            min_bits: ZFP_MIN_BITS,
            max_bits: ZFP_MAX_BITS,
            max_prec: ZFP_MAX_PREC,
            min_exp: ZFP_MIN_EXP,
        }
    }

    /// Minimum bits per block.
    pub fn min_bits(&self) -> (r: u32)
        ensures
            r == self.spec_min_bits(),
    {
        self.min_bits
    }

    /// Maximum bits per block.
    pub fn max_bits(&self) -> (r: u32)
        ensures
            r == self.spec_max_bits(),
    {
        self.max_bits
    }

    /// Maximum number of bit planes coded.
    pub fn max_prec(&self) -> (r: u32)
        ensures
            r == self.spec_max_prec(),
    {
        self.max_prec
    }

    /// Smallest bit-plane exponent coded.
    pub fn min_exp(&self) -> (r: i32)
        ensures
            r == self.spec_min_exp(),
    {
        self.min_exp
    }

    /// The mode this configuration selects.
    pub fn compression_mode(&self) -> (r: ZfpMode)
        ensures
            r == self.spec_compression_mode(),
    {
        compression_mode_from_params(self.min_bits, self.max_bits, self.max_prec, self.min_exp)
    }

    /// The precision of a fixed-precision configuration, zero otherwise.
    pub fn precision(&self) -> (r: u32)
        ensures
            r == (if self.spec_compression_mode() == ZfpMode::FixedPrecision {
                self.spec_max_prec()
            } else {
                0
            }),
    {
        precision_from_params(self.min_bits, self.max_bits, self.max_prec, self.min_exp)
    }

    /// The most bytes a compressed field of type `ty` with extents `dims` can
    /// take; zero for no or more than four extents, or when a count overflows.
    pub fn maximum_size(&self, ty: ZfpScalarType, dims: &[usize]) -> (r: usize)
        ensures
            r == spec_maximum_size(*self, ty, dims@),
    {
        let d = dims.len();
        if d == 0 || d > 4 {
            return 0;
        }
        let values: u32 = if d == 1 { 4 } else if d == 2 { 16 } else if d == 3 { 64 } else { 256 };
        proof {
            reveal_with_fuel(pow4_u, 5);
        }
        let type_prec: u32 = match ty {
            ZfpScalarType::Int32 | ZfpScalarType::Float => 32,
            _ => 64,
        };
        let mut extra_bits: u32 = if self.min_exp < ZFP_MIN_EXP {
            match ty {
                ZfpScalarType::Int32 => 5,
                ZfpScalarType::Int64 => 6,
                ZfpScalarType::Float => 1 + 1 + 8 + 5,
                ZfpScalarType::Double => 1 + 1 + 11 + 6,
            }
        } else {
            match ty {
                ZfpScalarType::Float => 1 + 8,
                ZfpScalarType::Double => 1 + 11,
                _ => 0,
            }
        };
        let prec = if self.max_prec < type_prec { self.max_prec } else { type_prec };
        extra_bits = extra_bits + (values - 1) + values * prec;
        let capped = if extra_bits < self.max_bits { extra_bits } else { self.max_bits };
        let maxbits = if capped > self.min_bits { capped } else { self.min_bits };
        assert(maxbits == spec_max_block_bits(*self, ty, d as nat));
        let mut blocks: usize = 1;
        let mut i: usize = 0;
        while i < d
            invariant
                d == dims@.len(),
                i <= d,
                spec_block_count(dims@.subrange(0, i as int)) == Some(blocks as int),
            decreases d - i,
        {
            let n = dims[i];
            let per = n / 4 + (if n % 4 == 0 { 0 } else { 1 });
            assert(dims@.subrange(0, i + 1).drop_last() =~= dims@.subrange(0, i as int));
            assert(per == (n + 3) / 4);
            match blocks.checked_mul(per) {
                Some(b) => {
                    blocks = b;
                },
                None => {
                    proof {
                        prefix_overflow(dims@, i + 1);
                    }
                    return 0;
                },
            }
            i = i + 1;
        }
        assert(dims@.subrange(0, d as int) =~= dims@);
        let header_max: u64 = 148;
        let product = (blocks as u64).checked_mul(maxbits as u64);
        let total = match product {
            Some(p) => p.checked_add(header_max),
            None => None,
        };
        match total {
            None => 0,
            Some(t) => {
                let q = t / 64 + (if t % 64 == 0 { 0 } else { 1 });
                if q > u64::MAX / 64 {
                    return 0;
                }
                let rounded = q * 64;
                assert(rounded == (t + 63) / 64 * 64);
                let bytes = rounded / 8;
                if bytes > usize::MAX as u64 {
                    return 0;
                }
                bytes as usize
            },
        }
    }

    /// The compact mode word of this configuration.
    pub fn mode_bits(&self) -> (r: u64)
        ensures
            r == self.spec_mode_word(),
    {
        mode_bits_from_params(self.min_bits, self.max_bits, self.max_prec, self.min_exp)
    }
}

/// Blocks along `dims`, one per four values or part thereof, multiplied from
/// the first axis on; `None` once a partial product exceeds `usize::MAX`.
pub open spec fn spec_block_count(dims: Seq<usize>) -> Option<int>
    decreases dims.len(),
{
    if dims.len() == 0 {
        Some(1)
    } else {
        match spec_block_count(dims.drop_last()) {
            None => None,
            Some(a) => {
                let p = a * ((dims.last() + 3) / 4);
                if p > usize::MAX {
                    None
                } else {
                    Some(p)
                }
            },
        }
    }
}

/// The most bits a block of a `d`-dimensional field of type `ty` can take
/// under configuration `c`.
pub open spec fn spec_max_block_bits(c: ZfpConfig, ty: ZfpScalarType, d: nat) -> int {
    let values = pow4_u(d);
    let type_prec: int = if ty == ZfpScalarType::Int32 || ty == ZfpScalarType::Float { 32 } else { 64 };
    let extra: int = if c.spec_min_exp() < ZFP_MIN_EXP {
        match ty {
            ZfpScalarType::Int32 => 5,
            ZfpScalarType::Int64 => 6,
            ZfpScalarType::Float => 15,
            ZfpScalarType::Double => 19,
        }
    } else {
        match ty {
            ZfpScalarType::Float => 9,
            ZfpScalarType::Double => 12,
            _ => 0,
        }
    };
    let prec: int = if c.spec_max_prec() < type_prec { c.spec_max_prec() as int } else { type_prec };
    let bits = extra + values - 1 + values * prec;
    let capped = if bits < c.spec_max_bits() { bits } else { c.spec_max_bits() as int };
    if capped > c.spec_min_bits() { capped } else { c.spec_min_bits() as int }
}

/// `4^d`.
pub open spec fn pow4_u(d: nat) -> int
    decreases d,
{
    if d == 0 {
        1
    } else {
        4 * pow4_u((d - 1) as nat)
    }
}

/// The most bytes a compressed field of type `ty` with extents `dims` can take
/// under configuration `c`: every block at its most bits, plus the longest
/// header, rounded up to whole words; zero for no or more than four extents,
/// and zero when a count does not fit its integer type.
pub open spec fn spec_maximum_size(c: ZfpConfig, ty: ZfpScalarType, dims: Seq<usize>) -> int {
    if dims.len() == 0 || dims.len() > 4 {
        0
    } else {
        match spec_block_count(dims) {
            None => 0,
            Some(blocks) => {
                let bits = blocks * spec_max_block_bits(c, ty, dims.len()) + 148;
                let rounded = (bits + 63) / 64 * 64;
                if bits > u64::MAX || rounded > u64::MAX || rounded / 8 > usize::MAX {
                    0
                } else {
                    rounded / 8
                }
            },
        }
    }
}

proof fn expert_word_fields(e: u64, p: u64, mb: u64, nb: u64, w: u64)
    by (bit_vector)
    requires
        e <= 0x7fff,
        p <= 0x7f,
        mb <= 0x7fff,
        nb <= 0x7fff,
        w == (e << 49u64) | (p << 42u64) | (mb << 27u64) | (nb << 12u64) | 0xfffu64,
    ensures
        w > 4094,
        ((w >> 12u64) & 0x7fff) == nb,
        (((w >> 12u64) >> 15u64) & 0x7fff) == mb,
        (((w >> 12u64) >> 30u64) & 0x7f) == p,
        (((w >> 12u64) >> 37u64) & 0x7fff) == e,
{
}

/// A configuration of the parameters its constructor gives (those outside
/// its mode's own at their defaults) is exactly what its mode word decodes
/// to, within the ranges the mode word stores in its short form (for the
/// named modes) or its long form (for expert configurations).
pub proof fn lemma_config_mode_word_roundtrip(c: ZfpConfig)
    requires
        1 <= c.spec_min_bits() <= c.spec_max_bits() <= 0x8000,
        1 <= c.spec_max_prec() <= 64,
        -16495 <= c.spec_min_exp() <= 16272,
        !(c.spec_compression_mode() == ZfpMode::FixedPrecision && c.spec_max_prec() == 64),
        c.spec_compression_mode() == ZfpMode::FixedPrecision || c.spec_compression_mode() == ZfpMode::FixedAccuracy
            || c.spec_compression_mode() == ZfpMode::Reversible ==> c.spec_max_bits() == ZFP_MAX_BITS,
        c.spec_compression_mode() == ZfpMode::Reversible ==> c.spec_min_exp() == ZFP_MIN_EXP - 1,
        c.spec_compression_mode() == ZfpMode::FixedRate ==> c.spec_max_bits() <= 2048,
        c.spec_compression_mode() == ZfpMode::FixedAccuracy ==> c.spec_min_exp() <= 843,
    ensures
        ZfpConfig::spec_from_mode(c.spec_mode_word()) == Some(c.spec_params()),
{
    lemma_mode_word_roundtrip(c.spec_min_bits(), c.spec_max_bits(), c.spec_max_prec(), c.spec_min_exp());
}

/// A configuration survives its mode word: decoding the word gives a valid
/// configuration of the same mode that keeps the mode's own parameter (the
/// bits of a fixed rate, the planes of a fixed precision, the exponent of a
/// fixed accuracy) and, for any other expert configuration, all four
/// parameters. It holds for parameters inside the ranges the long word
/// stores, except for a fixed precision of 64 planes, whose word decodes to
/// the default expert configuration.
pub proof fn lemma_mode_word_roundtrip(min_bits: u32, max_bits: u32, max_prec: u32, min_exp: i32)
    requires
        1 <= min_bits <= max_bits <= 0x8000,
        1 <= max_prec <= 64,
        -16495 <= min_exp <= 16272,
        !(spec_mode(min_bits, max_bits, max_prec, min_exp) == ZfpMode::FixedPrecision && max_prec == 64),
    ensures
        ({
            let m = spec_mode(min_bits, max_bits, max_prec, min_exp);
            let d = ZfpConfig::spec_from_mode(spec_mode_bits(min_bits, max_bits, max_prec, min_exp));
            let q = d.unwrap();
            &&& d is Some
            &&& spec_mode(q.0, q.1, q.2, q.3) == m
            &&& m == ZfpMode::FixedRate ==> q.0 == min_bits && q.1 == max_bits
            &&& m == ZfpMode::FixedPrecision ==> q.2 == max_prec
            &&& m == ZfpMode::FixedAccuracy ==> q.3 == min_exp
            &&& m == ZfpMode::Expert ==> q == (min_bits, max_bits, max_prec, min_exp)
        }),
{
    let w = spec_mode_bits(min_bits, max_bits, max_prec, min_exp);
    let m = spec_mode(min_bits, max_bits, max_prec, min_exp);
    if w == spec_expert_word(min_bits, max_bits, max_prec, min_exp) && !(m == ZfpMode::Reversible) {
        let nb = (min_bits - 1) as u64;
        let mb = (max_bits - 1) as u64;
        let p = (max_prec - 1) as u64;
        let e = (min_exp + 16495) as u64;
        expert_word_fields(e, p, mb, nb, w);
    }
}

proof fn prefix_overflow(dims: Seq<usize>, k: int)
    requires
        0 < k <= dims.len(),
        spec_block_count(dims.subrange(0, k)) is None,
    ensures
        spec_block_count(dims) is None,
    decreases dims.len() - k,
{
    if k < dims.len() {
        assert(dims.subrange(0, k + 1).drop_last() =~= dims.subrange(0, k));
        prefix_overflow(dims, k + 1);
    } else {
        assert(dims.subrange(0, k) =~= dims);
    }
}

impl Default for ZfpConfig {
    fn default() -> (r: ZfpConfig)
        ensures
            r.spec_params() == (ZFP_MIN_BITS, ZFP_MAX_BITS, ZFP_MAX_PREC, ZFP_MIN_EXP),
    {
        ZfpConfig::new()
    }
}

} // verus!
