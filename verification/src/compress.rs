//! Compression of a whole field: its blocks coded one after the other into a
//! bit stream, which is then flushed to a word boundary.

use vstd::prelude::*;
use crate::bitstream::ops::{copy_bits, pending_bits, ZfpBitStreamMutOps, ZfpBitStreamOps};
use crate::bitstream::owned::ZfpBitStream;
use crate::bitstream::stream_core::{has_room, lemma_new_wf, lemma_rewound_reads_written, offset_modulus, zero_bits, BitStreamState};
use crate::codec::gather::{gathered, gather_block, le_bytes_bound, plan_wf, pow256, span_bytes};
use crate::codec::order::pow4n;
use crate::codec::typed::{block_code, encode_block, raw_fits, BlockParams};
use crate::config::ZfpConfig;
use crate::field::ZfpField;
use crate::field_plan::{plan_field, plan_fits, spec_plan, FieldPlan, PlanError};
use crate::types::{ZfpCompressionError, ZfpScalarType};

verus! {

/// The block parameters of a configuration.
pub open spec fn params_of(c: ZfpConfig) -> BlockParams {
    BlockParams {
        min_bits: c.spec_min_bits(),
        max_bits: c.spec_max_bits(),
        max_prec: c.spec_max_prec(),
        min_exp: c.spec_min_exp(),
    }
}

/// The block parameters of a configuration.
pub fn block_params(c: &ZfpConfig) -> (r: BlockParams)
    ensures
        r == params_of(*c),
{
    BlockParams { min_bits: c.min_bits(), max_bits: c.max_bits(), max_prec: c.max_prec(), min_exp: c.min_exp() }
}

/// The codes of the first `k` blocks of the grid `p` over `data`, in block order.
pub open spec fn field_code(data: Seq<u8>, p: FieldPlan, c: BlockParams, k: int) -> Seq<bool>
    decreases k,
{
    if k <= 0 {
        Seq::empty()
    } else {
        field_code(data, p, c, k - 1) + block_code(
            p.scalar_type,
            gathered(data, p, k - 1),
            p.dims_enum.count(),
            c,
        )
    }
}

/// The zero bits that flushing adds after `n` bits.
pub open spec fn flush_pad(n: int) -> nat {
    ((64 - n % 64) % 64) as nat
}

pub(crate) proof fn lemma_field_code_grows(data: Seq<u8>, p: FieldPlan, c: BlockParams, k1: int, k2: int)
    requires
        0 <= k1 <= k2,
    ensures
        field_code(data, p, c, k1).len() <= field_code(data, p, c, k2).len(),
    decreases k2,
{
    if k1 < k2 {
        lemma_field_code_grows(data, p, c, k1, k2 - 1);
    }
}

/// The raw values of a block of a 4-byte type fit 32 bits.
pub(crate) proof fn lemma_gathered_fits(data: Seq<u8>, p: FieldPlan, b: int)
    ensures
        raw_fits(p.scalar_type, gathered(data, p, b)),
{
    let g = gathered(data, p, b);
    let size = p.scalar_type.spec_size();
    if size == 4 {
        assert(pow256(4) == 0x1_0000_0000) by {
            reveal_with_fuel(pow256, 5);
        }
        assert forall|j: int| 0 <= j < g.len() implies #[trigger] g[j] < 0x8000_0000 * 2 by {
            le_bytes_bound(data, crate::codec::gather::value_index(p, b, j) * size, size);
        }
    }
}

/// Code the blocks of a grid over `data`, one after the other.
pub fn compress_grid<S: ZfpBitStreamMutOps>(bs: &mut S, data: &[u8], p: &FieldPlan, c: &BlockParams)
    requires
        old(bs).spec_state().wf(),
        plan_wf(*p),
        span_bytes(*p) <= data@.len(),
        has_room(old(bs).spec_state(), old(bs).spec_words(), field_code(data@, *p, *c, p.num_blocks as int).len() as int),
    ensures
        final(bs).spec_state().wf(),
        final(bs).spec_words().len() == old(bs).spec_words().len(),
        final(bs).spec_state().written(final(bs).spec_words()) == old(bs).spec_state().written(old(bs).spec_words())
            + field_code(data@, *p, *c, p.num_blocks as int),
{
    let d = p.dim_count();
    let ghost w0 = old(bs).spec_state().written(old(bs).spec_words());
    let ghost n = p.num_blocks as int;
    proof {
        assert(w0.len() == old(bs).spec_state().write_offset());
        assert(w0 + field_code(data@, *p, *c, 0) =~= w0);
    }
    let mut b: usize = 0;
    while b < p.num_blocks
        invariant
            b <= p.num_blocks,
            n == p.num_blocks,
            d == p.dims_enum.count(),
            plan_wf(*p),
            span_bytes(*p) <= data@.len(),
            bs.spec_state().wf(),
            bs.spec_words().len() == old(bs).spec_words().len(),
            w0.len() == old(bs).spec_state().write_offset(),
            bs.spec_state().written(bs.spec_words()) == w0 + field_code(data@, *p, *c, b as int),
            old(bs).spec_state().write_offset() + field_code(data@, *p, *c, n).len() <= old(bs).spec_words().len() * 64,
        decreases p.num_blocks - b,
    {
        let raw = gather_block(data, p, b);
        proof {
            lemma_gathered_fits(data@, *p, b as int);
            lemma_field_code_grows(data@, *p, *c, b + 1, n);
            assert(bs.spec_state().write_offset() == bs.spec_state().written(bs.spec_words()).len());
            assert(d >= 1 && d <= 4);
        }
        let ghost before = bs.spec_state().written(bs.spec_words());
        encode_block(bs, p.scalar_type, raw.as_slice(), d, c);
        proof {
            assert(w0 + field_code(data@, *p, *c, b as int) + block_code(p.scalar_type, raw@, d as nat, *c) =~= w0
                + field_code(data@, *p, *c, b + 1));
        }
        b = b + 1;
    }
}

/// The bits of blocks `s` up to (not including) `e` of a grid over `data`,
/// in block order.
pub open spec fn range_code(data: Seq<u8>, p: FieldPlan, c: BlockParams, s: int, e: int) -> Seq<bool>
    decreases e - s,
{
    if e <= s {
        Seq::empty()
    } else {
        range_code(data, p, c, s, e - 1) + block_code(p.scalar_type, gathered(data, p, e - 1), p.dims_enum.count(), c)
    }
}

/// The code of the first `e` blocks is that of the first `s` followed by
/// that of blocks `s` to `e`.
pub proof fn lemma_range_split(data: Seq<u8>, p: FieldPlan, c: BlockParams, s: int, e: int)
    requires
        0 <= s <= e,
    ensures
        field_code(data, p, c, e) == field_code(data, p, c, s) + range_code(data, p, c, s, e),
    decreases e - s,
{
    if e > s {
        lemma_range_split(data, p, c, s, e - 1);
        let blk = block_code(p.scalar_type, gathered(data, p, e - 1), p.dims_enum.count(), c);
        assert(field_code(data, p, c, s) + range_code(data, p, c, s, e - 1) + blk =~= field_code(data, p, c, s)
            + range_code(data, p, c, s, e));
    } else {
        assert(field_code(data, p, c, s) + range_code(data, p, c, s, e) =~= field_code(data, p, c, s));
    }
}

/// Code blocks `s` up to `e` of a grid over `data`, one after the other.
fn compress_range<S: ZfpBitStreamMutOps>(bs: &mut S, data: &[u8], p: &FieldPlan, c: &BlockParams, s: usize, e: usize)
    requires
        old(bs).spec_state().wf(),
        plan_wf(*p),
        span_bytes(*p) <= data@.len(),
        s <= e <= p.num_blocks,
        has_room(old(bs).spec_state(), old(bs).spec_words(), range_code(data@, *p, *c, s as int, e as int).len() as int),
    ensures
        final(bs).spec_state().wf(),
        final(bs).spec_words().len() == old(bs).spec_words().len(),
        final(bs).spec_state().written(final(bs).spec_words()) == old(bs).spec_state().written(old(bs).spec_words())
            + range_code(data@, *p, *c, s as int, e as int),
{
    let d = p.dim_count();
    let ghost w0 = old(bs).spec_state().written(old(bs).spec_words());
    proof {
        assert(w0.len() == old(bs).spec_state().write_offset());
        assert(w0 + range_code(data@, *p, *c, s as int, s as int) =~= w0);
    }
    let mut b: usize = s;
    while b < e
        invariant
            s <= b <= e <= p.num_blocks,
            d == p.dims_enum.count(),
            plan_wf(*p),
            span_bytes(*p) <= data@.len(),
            bs.spec_state().wf(),
            bs.spec_words().len() == old(bs).spec_words().len(),
            w0.len() == old(bs).spec_state().write_offset(),
            bs.spec_state().written(bs.spec_words()) == w0 + range_code(data@, *p, *c, s as int, b as int),
            old(bs).spec_state().write_offset() + range_code(data@, *p, *c, s as int, e as int).len()
                <= old(bs).spec_words().len() * 64,
        decreases e - b,
    {
        let raw = gather_block(data, p, b);
        proof {
            lemma_gathered_fits(data@, *p, b as int);
            lemma_range_split(data@, *p, *c, s as int, b + 1);
            lemma_range_split(data@, *p, *c, s as int, e as int);
            lemma_field_code_grows(data@, *p, *c, b + 1, e as int);
            assert(bs.spec_state().write_offset() == bs.spec_state().written(bs.spec_words()).len());
            assert(d >= 1 && d <= 4);
        }
        encode_block(bs, p.scalar_type, raw.as_slice(), d, c);
        proof {
            assert(w0 + range_code(data@, *p, *c, s as int, b as int) + block_code(p.scalar_type, raw@, d as nat, *c) =~= w0
                + range_code(data@, *p, *c, s as int, b + 1));
        }
        b = b + 1;
    }
}

/// The first block of chunk `i` when `n` blocks are split into `k` chunks.
pub open spec fn chunk_start(n: int, k: int, i: int) -> int {
    n * i / k
}

fn chunk_start_exec(n: usize, k: usize, i: usize) -> (r: usize)
    requires
        1 <= k,
        i <= k,
    ensures
        r == chunk_start(n as int, k as int, i as int),
        r <= n,
{
    proof {
        assert(n * i <= n * k) by (nonlinear_arith)
            requires
                i <= k,
        ;
        vstd::arithmetic::div_mod::lemma_div_is_ordered(n * i, n * k, k as int);
        vstd::arithmetic::div_mod::lemma_div_multiples_vanish(n as int, k as int);
        assert(k * n == n * k) by (nonlinear_arith);
        assert((n as u128) * (i as u128) <= 0xffff_ffff_ffff_ffff * 0xffff_ffff_ffff_ffff) by (nonlinear_arith)
            requires
                n <= 0xffff_ffff_ffff_ffff,
                i <= 0xffff_ffff_ffff_ffff,
        ;
    }
    ((n as u128 * i as u128) / k as u128) as usize
}

/// Code the blocks of a grid over `data` in `k` chunks of consecutive
/// blocks: each chunk into a stream of its own, whose bits are then copied
/// after those of the chunks before it. The stream gets the same bits as
/// coding the blocks one after the other.
fn compress_grid_chunked<S: ZfpBitStreamMutOps>(bs: &mut S, data: &[u8], p: &FieldPlan, c: &BlockParams, k: usize)
    requires
        old(bs).spec_state().wf(),
        plan_wf(*p),
        span_bytes(*p) <= data@.len(),
        has_room(old(bs).spec_state(), old(bs).spec_words(), field_code(data@, *p, *c, p.num_blocks as int).len() as int),
        old(bs).spec_words().len() * 64 <= usize::MAX,
        1 <= k,
    ensures
        final(bs).spec_state().wf(),
        final(bs).spec_words().len() == old(bs).spec_words().len(),
        final(bs).spec_state().written(final(bs).spec_words()) == old(bs).spec_state().written(old(bs).spec_words())
            + field_code(data@, *p, *c, p.num_blocks as int),
{
    let ghost w0 = old(bs).spec_state().written(old(bs).spec_words());
    let ghost nb = p.num_blocks as int;
    let ghost len = old(bs).spec_words().len() as int;
    let n = p.num_blocks;
    let cap = ZfpBitStreamOps::capacity(bs);
    proof {
        assert(w0.len() == old(bs).spec_state().write_offset());
        assert(w0 + field_code(data@, *p, *c, 0) =~= w0);
        vstd::arithmetic::div_mod::lemma_div_multiples_vanish(n as int, k as int);
        assert(k * n == n * k) by (nonlinear_arith);
    }
    let mut i: usize = 0;
    let mut done: usize = 0;
    while i < k
        invariant
            1 <= k,
            i <= k,
            n == p.num_blocks,
            nb == n,
            done == chunk_start(n as int, k as int, i as int),
            done <= n,
            chunk_start(n as int, k as int, k as int) == n,
            plan_wf(*p),
            span_bytes(*p) <= data@.len(),
            bs.spec_state().wf(),
            len == old(bs).spec_words().len(),
            bs.spec_words().len() == len,
            cap == len * 8,
            len * 64 <= usize::MAX,
            w0.len() == old(bs).spec_state().write_offset(),
            bs.spec_state().written(bs.spec_words()) == w0 + field_code(data@, *p, *c, done as int),
            old(bs).spec_state().write_offset() + field_code(data@, *p, *c, nb).len() <= len * 64,
        decreases k - i,
    {
        let e = chunk_start_exec(n, k, i + 1);
        proof {
            assert(n * i <= n * (i + 1)) by (nonlinear_arith);
            vstd::arithmetic::div_mod::lemma_div_is_ordered(n * i, n * (i + 1), k as int);
            lemma_range_split(data@, *p, *c, done as int, e as int);
            lemma_field_code_grows(data@, *p, *c, e as int, nb);
        }
        let mut local = ZfpBitStream::new(cap);
        proof {
            lemma_new_wf();
            assert(local.spec_state().written(local.spec_words()) =~= Seq::<bool>::empty());
        }
        compress_range(&mut local, data, p, c, done, e);
        let ghost lw = local.spec_words();
        let ghost ls = local.spec_state();
        let nbits = local.bits_written();
        proof {
            vstd::arithmetic::div_mod::lemma_small_mod(ls.write_offset() as nat, offset_modulus() as nat);
            assert(ls.write_offset() == ls.written(lw).len());
        }
        let ghost code = range_code(data@, *p, *c, done as int, e as int);
        local.flush();
        let ghost fw = local.spec_words();
        proof {
            lemma_rewound_reads_written(local.spec_state(), fw);
            assert(ls.written(lw) =~= code);
            assert forall|j: int| 0 <= j < nbits implies #[trigger] BitStreamState::spec_new().pending(fw, j) == code[j] by {
                assert(local.spec_state().written(fw)[j] == ls.written(lw)[j]);
            }
            lemma_new_wf();
        }
        local.rewind();
        proof {
            assert(bs.spec_state().write_offset() == bs.spec_state().written(bs.spec_words()).len());
        }
        let ghost before = bs.spec_state().written(bs.spec_words());
        copy_bits(bs, &mut local, nbits);
        proof {
            assert(nbits == code.len());
            assert(local.spec_words() == fw);
            assert(pending_bits(BitStreamState::spec_new(), local.spec_words(), nbits as nat) =~= code);
            assert(before + code =~= w0 + field_code(data@, *p, *c, e as int));
        }
        done = e;
        i = i + 1;
    }
}

/// The compression error for a field that cannot be planned.
pub open spec fn compression_error(e: PlanError) -> ZfpCompressionError {
    match e {
        PlanError::NoData => ZfpCompressionError::NoData,
        PlanError::InvalidField { required, actual } => ZfpCompressionError::InvalidField { required, actual },
        PlanError::MisalignedData { align } => ZfpCompressionError::MisalignedData { align },
    }
}

impl From<PlanError> for ZfpCompressionError {
    fn from(e: PlanError) -> (r: Self) {
        match e {
            PlanError::NoData => ZfpCompressionError::NoData,
            PlanError::InvalidField { required, actual } => ZfpCompressionError::InvalidField { required, actual },
            PlanError::MisalignedData { align } => ZfpCompressionError::MisalignedData { align },
        }
    }
}

impl vstd::std_specs::convert::FromSpecImpl<PlanError> for ZfpCompressionError {
    open spec fn obeys_from_spec() -> bool {
        true
    }

    open spec fn from_spec(e: PlanError) -> ZfpCompressionError {
        compression_error(e)
    }
}

/// The bits a compressed field consists of: the codes of its blocks in block
/// order, before flushing.
pub open spec fn spec_compressed(field: ZfpField, config: ZfpConfig) -> Seq<bool> {
    let data = field.spec_data();
    match spec_plan(data.len() as int, field.spec_scalar_type(), field.spec_dims(), field.spec_strides()) {
        Ok(p) => field_code(data, p, params_of(config), p.num_blocks as int),
        Err(_) => Seq::empty(),
    }
}

/// Whether a field can be compressed: it has bytes, and as many as its
/// layout spans.
pub open spec fn spec_compressible(field: ZfpField) -> bool {
    spec_plan(field.spec_data().len() as int, field.spec_scalar_type(), field.spec_dims(), field.spec_strides()) is Ok
}

/// What compressing `field` needs of a stream with cursor `s` over words `w`:
/// a well-formed cursor, sizes that fit the machine, and, for a field that
/// can be compressed, room for its code.
pub open spec fn compress_pre(s: BitStreamState, w: Seq<u64>, field: ZfpField, config: ZfpConfig) -> bool {
    &&& s.wf()
    &&& field.spec_data().len() <= isize::MAX
    &&& w.len() * 8 <= usize::MAX
    &&& plan_fits(field.spec_data().len() as int, field.spec_scalar_type(), field.spec_dims(), field.spec_strides())
    &&& spec_compressible(field) ==> has_room(s, w, spec_compressed(field, config).len() as int)
}

/// What compressing `field` does to a stream (cursor `s0` over words `w0`
/// before, `s1` over `w1` after) and returns: the error of a field that
/// cannot be planned, with the stream unchanged; otherwise the field's code
/// and the zero bits up to the next word written, and the byte size of the
/// stream.
pub open spec fn compress_post(
    s0: BitStreamState,
    w0: Seq<u64>,
    s1: BitStreamState,
    w1: Seq<u64>,
    field: ZfpField,
    config: ZfpConfig,
    r: Result<usize, ZfpCompressionError>,
) -> bool {
    match spec_plan(field.spec_data().len() as int, field.spec_scalar_type(), field.spec_dims(), field.spec_strides()) {
        Err(e) => {
            &&& r == Err::<usize, ZfpCompressionError>(compression_error(e))
            &&& s1 == s0
            &&& w1 == w0
        },
        Ok(p) => {
            let code = spec_compressed(field, config);
            let before = s0.written(w0);
            &&& s1.wf()
            &&& s1.bits == 0
            &&& w1.len() == w0.len()
            &&& s1.written(w1) == before + code + zero_bits(flush_pad((before.len() + code.len()) as int))
            &&& r == Ok::<usize, ZfpCompressionError>((s1.word_pos * 8) as usize)
        },
    }
}

/// Compress a field into the bit stream: code its blocks one after the other,
/// flush, and return the stream's byte size. A field without bytes, or with
/// fewer bytes than its layout spans, is refused and the stream is left as it
/// is.
pub fn compress<S: ZfpBitStreamMutOps>(bs: &mut S, field: &ZfpField, config: &ZfpConfig) -> (r: Result<
    usize,
    ZfpCompressionError,
>)
    requires
        compress_pre(old(bs).spec_state(), old(bs).spec_words(), *field, *config),
    ensures
        compress_post(
            old(bs).spec_state(),
            old(bs).spec_words(),
            final(bs).spec_state(),
            final(bs).spec_words(),
            *field,
            *config,
            r,
        ),
{
    let data = field.data();
    let dims = field.dims();
    let strides = field.strides();
    let plan = plan_field(field.scalar_type(), &dims, &strides, data);
    match plan {
        Err(e) => Err(ZfpCompressionError::from(e)),
        Ok(p) => {
            let c = block_params(config);
            compress_grid(bs, data, &p, &c);
            let ghost s1 = bs.spec_state();
            proof {
                assert(s1.write_offset() == s1.written(bs.spec_words()).len());
                assert(s1.bits == s1.write_offset() % 64) by (nonlinear_arith)
                    requires
                        s1.write_offset() == s1.word_pos * 64 + s1.bits,
                        0 <= s1.bits < 64,
                ;
            }
            bs.flush();
            proof {
                assert(bs.spec_state().word_pos <= bs.spec_words().len());
            }
            Ok(bs.size())
        },
    }
}

/// Compress a field into the bit stream in chunks of consecutive blocks, as
/// many as `chunk_size` asks for (blocks over `chunk_size`, rounded up), or
/// else `threads`, at most one per block (one when neither is given): each
/// chunk is coded into a stream of its own and its bits are copied after
/// those of the chunks before it. The stream gets exactly what `compress`
/// gives it, and the result is the same.
pub fn compress_in_chunks<S: ZfpBitStreamMutOps>(
    bs: &mut S,
    field: &ZfpField,
    config: &ZfpConfig,
    threads: u32,
    chunk_size: u32,
) -> (r: Result<
    usize,
    ZfpCompressionError,
>)
    requires
        compress_pre(old(bs).spec_state(), old(bs).spec_words(), *field, *config),
    ensures
        compress_post(
            old(bs).spec_state(),
            old(bs).spec_words(),
            final(bs).spec_state(),
            final(bs).spec_words(),
            *field,
            *config,
            r,
        ),
{
    let data = field.data();
    let dims = field.dims();
    let strides = field.strides();
    let plan = plan_field(field.scalar_type(), &dims, &strides, data);
    match plan {
        Err(e) => Err(ZfpCompressionError::from(e)),
        Ok(p) => {
            let c = block_params(config);
            let blocks = p.num_blocks;
            let k: usize = if chunk_size > 0 {
                let cs = chunk_size as usize;
                let q = blocks / cs;
                let q = if blocks % cs != 0 && q < blocks { q + 1 } else { q };
                if q < blocks { q } else { blocks }
            } else if threads > 0 {
                if (threads as usize) < blocks { threads as usize } else { blocks }
            } else {
                1
            };
            let k: usize = if k == 0 { 1 } else { k };
            let cap = ZfpBitStreamOps::capacity(bs);
            if cap <= usize::MAX / 8 {
                compress_grid_chunked(bs, data, &p, &c, k);
            } else {
                compress_grid(bs, data, &p, &c);
            }
            let ghost s1 = bs.spec_state();
            proof {
                assert(s1.write_offset() == s1.written(bs.spec_words()).len());
                assert(s1.bits == s1.write_offset() % 64) by (nonlinear_arith)
                    requires
                        s1.write_offset() == s1.word_pos * 64 + s1.bits,
                        0 <= s1.bits < 64,
                ;
            }
            bs.flush();
            proof {
                assert(bs.spec_state().word_pos <= bs.spec_words().len());
            }
            Ok(bs.size())
        },
    }
}

} // verus!
