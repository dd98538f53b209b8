//! The stream header: a magic word, the field metadata and the compression
//! mode word, each written only when the mask asks for it.

use vstd::prelude::*;
use crate::bitstream::ops::{ZfpBitStreamMutOps, ZfpBitStreamOps};
use crate::bitstream::stream_core::{has_room, lemma_reads_within, low_bits, reads_within, BitStreamState};
use crate::codec::block::{bits_value, lemma_read_value};
use crate::config::{ZfpConfig, MODE_SHORT_MAX};
use crate::field::{spec_decode_metadata, spec_field_metadata, ZfpField, ZfpFieldMetadata};
use crate::types::{ZfpHeaderMask, ZfpMetadataError};

verus! {

/// What a header read gave: the bits read, and the metadata and the
/// configuration when the mask asked for them.
#[derive(Debug, Clone, Copy, PartialEq, Eq, Hash)]
pub struct ZfpHeader {
    /// Number of header bits read.
    pub bits_read: usize,
    /// The field metadata, when the mask asked for it.
    pub metadata: Option<ZfpFieldMetadata>,
    /// The compression configuration, when the mask asked for it.
    pub config: Option<ZfpConfig>,
}

/// Why a header could not be read.
#[derive(Debug, Clone, Copy, PartialEq, Eq, Structural, Hash)]
pub enum ZfpHeaderError {
    /// The magic word is not `zfp` and the codec version.
    InvalidMagic,
    /// The metadata word is invalid.
    InvalidMetadata,
    /// The mode word is invalid.
    InvalidMode,
}

impl ZfpHeaderError {
    /// A description of the error.
    pub fn message(&self) -> (r: &'static str)
        ensures
            r@ == (match *self {
                ZfpHeaderError::InvalidMagic => "invalid ZFP header magic"@,
                ZfpHeaderError::InvalidMetadata => "invalid ZFP field metadata in header"@,
                ZfpHeaderError::InvalidMode => "invalid ZFP compression mode in header"@,
            }),
    {
        match self {
            ZfpHeaderError::InvalidMagic => "invalid ZFP header magic",
            ZfpHeaderError::InvalidMetadata => "invalid ZFP field metadata in header",
            ZfpHeaderError::InvalidMode => "invalid ZFP compression mode in header",
        }
    }
}

/// The codec version in the magic word.
pub const ZFP_CODEC: u64 = 5;

/// Whether `mask` asks for the section with flag `bit`.
pub open spec fn has_section(mask: ZfpHeaderMask, bit: u32) -> bool {
    mask.spec_bits() & bit == bit
}

/// The magic word: `z`, `f`, `p` and the codec version, eight bits each.
pub open spec fn magic_bits() -> Seq<bool> {
    low_bits(0x7a, 8) + low_bits(0x66, 8) + low_bits(0x70, 8) + low_bits(5, 8)
}

/// The width of a mode word: 12 bits for the short form, 64 for the long one.
pub open spec fn mode_width(mode: u64) -> nat {
    if mode > MODE_SHORT_MAX {
        64
    } else {
        12
    }
}

/// The header bits for `mask`, metadata word `meta` and mode word `mode`.
pub open spec fn header_bits(mask: ZfpHeaderMask, meta: u64, mode: u64) -> Seq<bool> {
    (if has_section(mask, 1) { magic_bits() } else { Seq::empty() }) + (if has_section(mask, 2) {
        low_bits(meta, 52)
    } else {
        Seq::empty()
    }) + (if has_section(mask, 4) { low_bits(mode, mode_width(mode)) } else { Seq::empty() })
}

/// Write the header sections that `mask` asks for; return the bits written.
/// Nothing is written, and zero returned, when the mask asks for the
/// metadata and the field has none.
pub fn write_header_bs<S: ZfpBitStreamMutOps>(bs: &mut S, field: &ZfpField, mask: ZfpHeaderMask, mode: u64) -> (r: usize)
    requires
        old(bs).spec_state().wf(),
        has_room(old(bs).spec_state(), old(bs).spec_words(), 148),
    ensures
        final(bs).spec_state().wf(),
        final(bs).spec_words().len() == old(bs).spec_words().len(),
        ({
            let m = spec_field_metadata(field.spec_scalar_type(), field.spec_dims());
            if has_section(mask, 2) && m is Err {
                &&& r == 0
                &&& final(bs).spec_state().written(final(bs).spec_words()) == old(bs).spec_state().written(old(bs).spec_words())
            } else {
                let w = header_bits(mask, if m is Ok { m->Ok_0 } else { 0 }, mode);
                &&& r == w.len()
                &&& final(bs).spec_state().written(final(bs).spec_words()) == old(bs).spec_state().written(old(bs).spec_words()) + w
            }
        }),
{
    let ghost w0 = bs.spec_state().written(bs.spec_words());
    let md = field.metadata();
    let has_meta = mask.contains(ZfpHeaderMask::meta());
    if has_meta {
        match md {
            Err(_) => {
                return 0;
            },
            Ok(_) => {},
        }
    }
    let mut bits: usize = 0;
    proof {
        assert(bs.spec_state().write_offset() == w0.len());
    }
    if mask.contains(ZfpHeaderMask::magic()) {
        bs.write_bits(0x7a, 8);
        bs.write_bits(0x66, 8);
        bs.write_bits(0x70, 8);
        bs.write_bits(ZFP_CODEC, 8);
        bits = bits + 32;
    }
    let ghost w1 = bs.spec_state().written(bs.spec_words());
    proof {
        if has_section(mask, 1) {
            assert(w1 =~= w0 + magic_bits());
        } else {
            assert(w1 =~= w0 + Seq::<bool>::empty());
        }
    }
    let meta: u64 = match md {
        Ok(m) => m,
        Err(_) => 0,
    };
    if has_meta {
        bs.write_bits(meta, 52);
        bits = bits + 52;
    }
    let ghost w2 = bs.spec_state().written(bs.spec_words());
    if mask.contains(ZfpHeaderMask::mode()) {
        let size: u32 = if mode > MODE_SHORT_MAX { 64 } else { 12 };
        bs.write_bits(mode, size);
        bits = bits + size as usize;
    }
    proof {
        let hm = if has_section(mask, 2) { low_bits(meta, 52) } else { Seq::<bool>::empty() };
        let hd = if has_section(mask, 4) { low_bits(mode, mode_width(mode)) } else { Seq::<bool>::empty() };
        let hg = if has_section(mask, 1) { magic_bits() } else { Seq::<bool>::empty() };
        assert(w2 =~= w1 + hm);
        assert(bs.spec_state().written(bs.spec_words()) =~= w2 + hd);
        assert(header_bits(mask, meta, mode) == hg + hm + hd);
        assert(w0 + (hg + hm + hd) =~= w0 + hg + hm + hd);
    }
    bits
}


/// The magic word is in the 32 bits of `src` from position `pos`.
pub open spec fn magic_at(src: spec_fn(int) -> bool, pos: int) -> bool {
    &&& bits_value(src, pos, 8) == 0x7a
    &&& bits_value(src, pos + 8, 8) == 0x66
    &&& bits_value(src, pos + 16, 8) == 0x70
    &&& bits_value(src, pos + 24, 8) == 5
}

/// The mode word read from position `pos` of `src`: 12 bits, and 52 more
/// above them when the 12 bits are past the short forms.
pub open spec fn mode_at(src: spec_fn(int) -> bool, pos: int) -> (u64, int) {
    let short = bits_value(src, pos, 12);
    if short > MODE_SHORT_MAX {
        (short | (bits_value(src, pos + 12, 52) << 12u64), 64)
    } else {
        (short, 12)
    }
}

/// What reading a header with `mask` from the bits `src` gives: the bits
/// read, the metadata and the configuration parameters, or the first error.
pub open spec fn spec_read_header(src: spec_fn(int) -> bool, mask: ZfpHeaderMask) -> Result<
    (int, Option<(crate::types::ZfpScalarType, [usize; 4])>, Option<(u32, u32, u32, i32)>),
    ZfpHeaderError,
> {
    let p1: int = if has_section(mask, 1) { 32 } else { 0 };
    let p2: int = if has_section(mask, 2) { p1 + 52 } else { p1 };
    let md = if has_section(mask, 2) { spec_decode_metadata(bits_value(src, p1, 52)) } else { None };
    let m = mode_at(src, p2);
    let cfg = if has_section(mask, 4) { ZfpConfig::spec_from_mode(m.0) } else { None };
    if has_section(mask, 1) && !magic_at(src, 0) {
        Err(ZfpHeaderError::InvalidMagic)
    } else if has_section(mask, 2) && md is None {
        Err(ZfpHeaderError::InvalidMetadata)
    } else if has_section(mask, 4) && cfg is None {
        Err(ZfpHeaderError::InvalidMode)
    } else {
        Ok((if has_section(mask, 4) { p2 + m.1 } else { p2 }, md, cfg))
    }
}

proof fn header_constant_bits()
    by (bit_vector)
    ensures
        0x7au64 >> 8u64 == 0u64,
        0x66u64 >> 8u64 == 0u64,
        0x70u64 >> 8u64 == 0u64,
        5u64 >> 8u64 == 0u64,
{
}

proof fn long_mode_bits(m: u64, j: u64, j12: u64)
    by (bit_vector)
    requires
        j < 52,
        j12 == j + 12,
    ensures
        ((m >> 12u64) >> j) & 1u64 == (m >> j12) & 1u64,
        (m >> 12u64) >> 52u64 == 0u64,
        m & 0xfffu64 == 0xfffu64 ==> 0xfffu64 | ((m >> 12u64) << 12u64) == m,
        m & 0xfffu64 == 0xfffu64 ==> m > 4094u64,
        (m & 0xfffu64) >> 12u64 == 0u64,
        j < 12 && m & 0xfffu64 == 0xfffu64 ==> (m >> j) & 1u64 == 1u64,
        j < 12 ==> (0xfffu64 >> j) & 1u64 == 1u64,
{
}

/// `n` bits of `src` from `pos` that are the low `n` bits of `v`, with
/// nothing of `v` above them, read as `v`.
proof fn lemma_segment_value(src: spec_fn(int) -> bool, all: Seq<bool>, pos: int, v: u64, n: nat)
    requires
        n < 63,
        v >> (n as u64) == 0,
        0 <= pos,
        pos + n <= all.len(),
        forall|t: int| 0 <= t < all.len() ==> src(t) == #[trigger] all[t],
        forall|j: int| 0 <= j < n ==> #[trigger] all[pos + j] == crate::codec::embedded::plane_bit(v, j),
    ensures
        bits_value(src, pos, n) == v,
{
    assert forall|j: int| 0 <= j < n implies #[trigger] src(pos + j) == crate::codec::embedded::plane_bit(v, j) by {
        assert(src(pos + j) == all[pos + j]);
    }
    lemma_read_value(src, pos, v, n);
}

/// What reading a header gives back of writing one: from the bits of a
/// header with a 52-bit metadata word `meta` and a mode word `mode` (short,
/// or long with its low 12 bits set, as every mode word is), reading with
/// the same mask reads exactly those bits and decodes the metadata word and
/// the mode word as each decodes on its own.
pub proof fn lemma_header_roundtrip(mask: ZfpHeaderMask, meta: u64, mode: u64, src: spec_fn(int) -> bool)
    requires
        meta >> 52u64 == 0,
        mode <= MODE_SHORT_MAX || mode & 0xfffu64 == 0xfffu64,
        forall|t: int| 0 <= t < header_bits(mask, meta, mode).len() ==> src(t) == #[trigger] header_bits(mask, meta, mode)[t],
        has_section(mask, 2) ==> spec_decode_metadata(meta) is Some,
        has_section(mask, 4) ==> ZfpConfig::spec_from_mode(mode) is Some,
    ensures
        spec_read_header(src, mask) == Ok::<(int, Option<(crate::types::ZfpScalarType, [usize; 4])>, Option<(u32, u32, u32, i32)>), ZfpHeaderError>((
            header_bits(mask, meta, mode).len() as int,
            if has_section(mask, 2) { spec_decode_metadata(meta) } else { None },
            if has_section(mask, 4) { ZfpConfig::spec_from_mode(mode) } else { None },
        )),
{
    let all = header_bits(mask, meta, mode);
    let a: Seq<bool> = if has_section(mask, 1) { magic_bits() } else { Seq::empty() };
    let b: Seq<bool> = if has_section(mask, 2) { low_bits(meta, 52) } else { Seq::empty() };
    let c: Seq<bool> = if has_section(mask, 4) { low_bits(mode, mode_width(mode)) } else { Seq::empty() };
    assert(all == a + b + c);
    let p1 = a.len() as int;
    let p2 = p1 + b.len();
    if has_section(mask, 1) {
        header_constant_bits();
        assert forall|j: int| 0 <= j < 8 implies #[trigger] all[0 + j] == crate::codec::embedded::plane_bit(0x7a, j) by {}
        lemma_segment_value(src, all, 0, 0x7a, 8);
        assert forall|j: int| 0 <= j < 8 implies #[trigger] all[8 + j] == crate::codec::embedded::plane_bit(0x66, j) by {}
        lemma_segment_value(src, all, 8, 0x66, 8);
        assert forall|j: int| 0 <= j < 8 implies #[trigger] all[16 + j] == crate::codec::embedded::plane_bit(0x70, j) by {}
        lemma_segment_value(src, all, 16, 0x70, 8);
        assert forall|j: int| 0 <= j < 8 implies #[trigger] all[24 + j] == crate::codec::embedded::plane_bit(5, j) by {}
        lemma_segment_value(src, all, 24, 5, 8);
    }
    if has_section(mask, 2) {
        assert forall|j: int| 0 <= j < 52 implies #[trigger] all[p1 + j] == crate::codec::embedded::plane_bit(meta, j) by {}
        lemma_segment_value(src, all, p1, meta, 52);
    }
    if has_section(mask, 4) {
        if mode <= MODE_SHORT_MAX {
            assert(mode >> 12u64 == 0u64) by (bit_vector)
                requires
                    mode <= 4094u64,
            ;
            assert forall|j: int| 0 <= j < 12 implies #[trigger] all[p2 + j] == crate::codec::embedded::plane_bit(mode, j) by {}
            lemma_segment_value(src, all, p2, mode, 12);
        } else {
            long_mode_bits(mode, 0, 12);
            let lo = mode & 0xfffu64;
            let hi = mode >> 12u64;
            assert forall|j: int| 0 <= j < 12 implies #[trigger] all[p2 + j] == crate::codec::embedded::plane_bit(lo, j) by {
                long_mode_bits(mode, j as u64, (j + 12) as u64);
            }
            lemma_segment_value(src, all, p2, lo, 12);
            assert forall|j: int| 0 <= j < 52 implies #[trigger] all[p2 + 12 + j] == crate::codec::embedded::plane_bit(hi, j) by {
                long_mode_bits(mode, j as u64, (j + 12) as u64);
                assert(all[p2 + 12 + j] == c[12 + j]);
            }
            lemma_segment_value(src, all, p2 + 12, hi, 52);
        }
    }
}

fn read_checked<S: ZfpBitStreamOps>(bs: &mut S, n: u32, Ghost(src): Ghost<spec_fn(int) -> bool>, Ghost(pos): Ghost<int>) -> (r: u64)
    requires
        old(bs).spec_state().wf(),
        1 <= n <= 52,
        forall|j: int| 0 <= j ==> #[trigger] old(bs).spec_state().pending(old(bs).spec_words(), j) == src(pos + j),
    ensures
        r == bits_value(src, pos, n as nat),
        final(bs).spec_state().wf(),
        final(bs).spec_words() == old(bs).spec_words(),
        forall|j: int| 0 <= j ==> #[trigger] final(bs).spec_state().pending(final(bs).spec_words(), j) == src(pos + n + j),
        reads_within(old(bs).spec_words(), old(bs).spec_state(), n as int) ==> final(bs).spec_state().read_offset()
            == old(bs).spec_state().read_offset() + n,
{
    proof {
        if reads_within(old(bs).spec_words(), old(bs).spec_state(), n as int) {
            lemma_reads_within(old(bs).spec_words(), old(bs).spec_state(), n as int, n as int);
        }
    }
    let r = bs.read_bits(n);
    proof {
        assert forall|j: int| 0 <= j < n implies src(pos + j) == crate::codec::embedded::plane_bit(r, j) by {
            assert(old(bs).spec_state().pending(old(bs).spec_words(), j) == src(pos + j));
        }
        lemma_read_value(src, pos, r, n as nat);
        assert forall|j: int| 0 <= j implies #[trigger] bs.spec_state().pending(bs.spec_words(), j) == src(pos + n + j) by {
            assert(old(bs).spec_state().pending(old(bs).spec_words(), j + n) == src(pos + (j + n)));
        }
    }
    r
}

/// Reading `n` bits after the first `pos` keeps the cursor `pos + n` bits past
/// where it started, as long as those bits lie within the words.
proof fn lemma_read_step(w: Seq<u64>, s0: BitStreamState, sb: BitStreamState, sa: BitStreamState, pos: int, n: int)
    requires
        0 <= pos,
        0 <= n,
        reads_within(w, s0, pos) ==> sb.read_offset() == s0.read_offset() + pos,
        reads_within(w, sb, n) ==> sa.read_offset() == sb.read_offset() + n,
    ensures
        reads_within(w, s0, pos + n) ==> sa.read_offset() == s0.read_offset() + pos + n,
{
}

/// What reading the header sections of `mask` from a stream (cursor `s0`
/// over words `w0` before, `s1` over `w1` after) does and returns: the words
/// are unchanged, and the result is what `spec_read_header` reads from the
/// pending bits, with the cursor past the bits read on success.
pub open spec fn read_header_post(
    s0: BitStreamState,
    w0: Seq<u64>,
    s1: BitStreamState,
    w1: Seq<u64>,
    mask: ZfpHeaderMask,
    r: Result<ZfpHeader, ZfpHeaderError>,
) -> bool {
    let src = |j: int| s0.pending(w0, j);
    let h = spec_read_header(src, mask);
    &&& s1.wf()
    &&& w1 == w0
    &&& (r is Ok <==> h is Ok)
    &&& (r matches Err(e) ==> h == Err::<(int, Option<(crate::types::ZfpScalarType, [usize; 4])>, Option<(u32, u32, u32, i32)>), ZfpHeaderError>(e))
    &&& (r matches Ok(hd) ==> {
        let v = h.unwrap();
        &&& hd.bits_read == v.0
        &&& (hd.metadata matches Some(m) ==> v.1 == Some((m.scalar_type, m.dims)))
        &&& (hd.metadata is None <==> v.1 is None)
        &&& (hd.config matches Some(c) ==> v.2 == Some(c.spec_params()))
        &&& (hd.config is None <==> v.2 is None)
        &&& forall|j: int| 0 <= j ==> #[trigger] s1.pending(w1, j) == src(v.0 + j)
        &&& reads_within(w0, s0, v.0) ==> s1.read_offset() == s0.read_offset() + v.0
    })
}

/// Read the header sections that `mask` asks for.
pub fn read_header_bs<S: ZfpBitStreamOps>(bs: &mut S, mask: ZfpHeaderMask) -> (r: Result<ZfpHeader, ZfpHeaderError>)
    requires
        old(bs).spec_state().wf(),
    ensures
        read_header_post(
            old(bs).spec_state(),
            old(bs).spec_words(),
            final(bs).spec_state(),
            final(bs).spec_words(),
            mask,
            r,
        ),
{
    let ghost src = |j: int| old(bs).spec_state().pending(old(bs).spec_words(), j);
    let ghost w = bs.spec_words();
    let ghost s0 = bs.spec_state();
    let ghost mut pos: int = 0;
    let mut bits: usize = 0;
    let mut metadata: Option<ZfpFieldMetadata> = None;
    let mut config: Option<ZfpConfig> = None;
    if mask.contains(ZfpHeaderMask::magic()) {
        let ghost sb = bs.spec_state();
        let a = read_checked(bs, 8, Ghost(src), Ghost(0));
        proof {
            lemma_read_step(w, s0, sb, bs.spec_state(), 0, 8);
        }
        if a != 0x7a {
            return Err(ZfpHeaderError::InvalidMagic);
        }
        let ghost sb = bs.spec_state();
        let b = read_checked(bs, 8, Ghost(src), Ghost(8));
        proof {
            lemma_read_step(w, s0, sb, bs.spec_state(), 8, 8);
        }
        if b != 0x66 {
            return Err(ZfpHeaderError::InvalidMagic);
        }
        let ghost sb = bs.spec_state();
        let c = read_checked(bs, 8, Ghost(src), Ghost(16));
        proof {
            lemma_read_step(w, s0, sb, bs.spec_state(), 16, 8);
        }
        if c != 0x70 {
            return Err(ZfpHeaderError::InvalidMagic);
        }
        let ghost sb = bs.spec_state();
        let d = read_checked(bs, 8, Ghost(src), Ghost(24));
        proof {
            lemma_read_step(w, s0, sb, bs.spec_state(), 24, 8);
        }
        if d != ZFP_CODEC {
            return Err(ZfpHeaderError::InvalidMagic);
        }
        bits = bits + 32;
        proof {
            pos = 32;
        }
    }
    if mask.contains(ZfpHeaderMask::meta()) {
        let ghost sb = bs.spec_state();
        let meta = read_checked(bs, 52, Ghost(src), Ghost(pos));
        proof {
            lemma_read_step(w, s0, sb, bs.spec_state(), pos, 52);
        }
        match ZfpFieldMetadata::from_bits(meta) {
            Some(m) => {
                metadata = Some(m);
            },
            None => {
                return Err(ZfpHeaderError::InvalidMetadata);
            },
        }
        bits = bits + 52;
        proof {
            pos = pos + 52;
        }
    }
    if mask.contains(ZfpHeaderMask::mode()) {
        let ghost sb = bs.spec_state();
        let short = read_checked(bs, 12, Ghost(src), Ghost(pos));
        proof {
            lemma_read_step(w, s0, sb, bs.spec_state(), pos, 12);
        }
        let mut mode = short;
        bits = bits + 12;
        if short > MODE_SHORT_MAX {
            let ghost sb = bs.spec_state();
            let extra = read_checked(bs, 52, Ghost(src), Ghost(pos + 12));
            proof {
                lemma_read_step(w, s0, sb, bs.spec_state(), pos + 12, 52);
            }
            mode = short | (extra << 12u64);
            bits = bits + 52;
        }
        proof {
            pos = pos + mode_at(src, pos).1;
        }
        match ZfpConfig::from_mode(mode) {
            Some(c) => {
                config = Some(c);
            },
            None => {
                return Err(ZfpHeaderError::InvalidMode);
            },
        }
    }
    Ok(ZfpHeader { bits_read: bits, metadata, config })
}

} // verus!
