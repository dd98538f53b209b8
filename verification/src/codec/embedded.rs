//! Embedded coding of a block of unsigned integers, one bit plane at a time
//! from the most significant down.
//!
//! In each plane the bits of the values already found significant are sent
//! as they are; the rest of the plane is sent by group tests: a one says
//! that some remaining value has its bit set, followed by the bits of the
//! values up to and including the first such one; a zero ends the plane.
//! Coding stops when the bit budget runs out or the last plane is sent.

use vstd::prelude::*;
use crate::bitstream::ops::{ZfpBitStreamMutOps, ZfpBitStreamOps};
use crate::bitstream::stream_core::{has_room, lemma_reads_within, reads_within, BitStreamState};

verus! {

/// Bit `k` of `v`.
pub open spec fn plane_bit(v: u64, k: int) -> bool {
    (v >> (k as u64)) & 1u64 == 1u64
}

/// How many of `data[i..]` have bit `k` set.
pub open spec fn ones_from(data: Seq<u64>, k: int, i: int) -> int
    decreases data.len() - i,
{
    if i >= data.len() || i < 0 {
        0
    } else {
        (if plane_bit(data[i], k) {
            1int
        } else {
            0
        }) + ones_from(data, k, i + 1)
    }
}

/// The group tests of plane `k` from value `i` with `bits` left to spend:
/// the bits sent, the first value not yet significant and the bits left.
/// `scanning` is the state after a positive test, while the values are sent
/// one by one up to the first that has its bit set.
pub open spec fn group_bits(data: Seq<u64>, k: int, i: int, bits: int, scanning: bool) -> (Seq<bool>, int, int)
    decreases 2 * (data.len() - i) + (if scanning { 0int } else { 1 }),
{
    if !scanning {
        if bits <= 0 || i >= data.len() || i < 0 {
            (Seq::empty(), i, bits)
        } else if ones_from(data, k, i) == 0 {
            (seq![false], i, bits - 1)
        } else {
            let r = group_bits(data, k, i, bits - 1, true);
            (seq![true] + r.0, r.1, r.2)
        }
    } else {
        if bits <= 0 || i + 1 >= data.len() || i < 0 {
            (Seq::empty(), i + 1, bits)
        } else if plane_bit(data[i], k) {
            let r = group_bits(data, k, i + 1, bits - 1, false);
            (seq![true] + r.0, r.1, r.2)
        } else {
            let r = group_bits(data, k, i + 1, bits - 1, true);
            (seq![false] + r.0, r.1, r.2)
        }
    }
}

/// Plane `k` coded with `n` values already significant and `bits` to spend:
/// the bits sent, the values significant afterwards and the bits left.
pub open spec fn plane_bits(data: Seq<u64>, k: int, n: int, bits: int) -> (Seq<bool>, int, int) {
    let m = if n < bits { n } else { bits };
    let head = Seq::new(m as nat, |j: int| plane_bit(data[j], k));
    let r = group_bits(data, k, n, bits - m, false);
    (head + r.0, r.1, r.2)
}

/// The planes below `k` down to `kmin` coded from the state `(n, bits)`.
pub open spec fn planes_bits(data: Seq<u64>, k: int, kmin: int, n: int, bits: int) -> Seq<bool>
    decreases k - kmin,
{
    if bits <= 0 || k <= kmin {
        Seq::empty()
    } else {
        let r = plane_bits(data, k - 1, n, bits);
        r.0 + planes_bits(data, k - 1, kmin, r.1, r.2)
    }
}

/// The lowest plane coded when at most `maxprec` of `intprec` planes are.
pub open spec fn lowest_plane(intprec: int, maxprec: int) -> int {
    if intprec > maxprec {
        intprec - maxprec
    } else {
        0
    }
}

/// The bits that code `data` (values of `intprec` bits) in at most `maxbits`
/// bits and `maxprec` planes.
pub open spec fn emb_encode(data: Seq<u64>, intprec: int, maxbits: int, maxprec: int) -> Seq<bool> {
    planes_bits(data, intprec, lowest_plane(intprec, maxprec), 0, maxbits)
}

proof fn group_bits_bounds(data: Seq<u64>, k: int, i: int, bits: int, scanning: bool)
    requires
        0 <= i <= data.len(),
        bits >= 0,
        scanning ==> i < data.len(),
    ensures
        ({
            let r = group_bits(data, k, i, bits, scanning);
            &&& i <= r.1 <= data.len()
            &&& 0 <= r.2 <= bits
            &&& r.0.len() == bits - r.2
        }),
    decreases 2 * (data.len() - i) + (if scanning { 0int } else { 1 }),
{
    if !scanning {
        if bits <= 0 || i >= data.len() {
        } else if ones_from(data, k, i) == 0 {
        } else {
            group_bits_bounds(data, k, i, bits - 1, true);
        }
    } else {
        if bits <= 0 || i + 1 >= data.len() {
        } else if plane_bit(data[i], k) {
            group_bits_bounds(data, k, i + 1, bits - 1, false);
        } else {
            group_bits_bounds(data, k, i + 1, bits - 1, true);
        }
    }
}

proof fn planes_bits_len(data: Seq<u64>, k: int, kmin: int, n: int, bits: int)
    requires
        0 <= n <= data.len(),
        bits >= 0,
    ensures
        planes_bits(data, k, kmin, n, bits).len() <= bits,
    decreases k - kmin,
{
    if bits <= 0 || k <= kmin {
    } else {
        let m = if n < bits { n } else { bits };
        group_bits_bounds(data, k - 1, n, bits - m, false);
        let r = plane_bits(data, k - 1, n, bits);
        planes_bits_len(data, k - 1, kmin, r.1, r.2);
    }
}

/// The number of values of `data[n..]` with bit `k` set.
pub(crate) fn count_ones(data: &[u64], k: u32, n: usize) -> (c: u32)
    requires
        data@.len() <= 256,
        n <= data@.len(),
        k < 64,
    ensures
        c == ones_from(data@, k as int, n as int),
{
    let mut c: u32 = 0;
    let mut j: usize = n;
    while j < data.len()
        invariant
            data@.len() <= 256,
            n <= j <= data@.len(),
            k < 64,
            c + ones_from(data@, k as int, j as int) == ones_from(data@, k as int, n as int),
            c <= j - n,
        decreases data@.len() - j,
    {
        let b = (data[j] >> k as u64) & 1;
        if b == 1 {
            c = c + 1;
        }
        j = j + 1;
    }
    c
}

/// Code `data` (values of `intprec` bits, at most 256 of them) in at most
/// `maxbits` bits and `maxprec` planes; return the number of bits sent.
pub fn encode_ints<S: ZfpBitStreamMutOps>(bs: &mut S, maxbits: u32, maxprec: u32, intprec: u32, data: &[u64]) -> (r: u32)
    requires
        old(bs).spec_state().wf(),
        intprec == 32 || intprec == 64,
        1 <= data@.len() <= 256,
        has_room(old(bs).spec_state(), old(bs).spec_words(), emb_encode(data@, intprec as int, maxbits as int, maxprec as int).len() as int),
    ensures
        final(bs).spec_state().wf(),
        final(bs).spec_words().len() == old(bs).spec_words().len(),
        final(bs).spec_state().written(final(bs).spec_words()) == old(bs).spec_state().written(old(bs).spec_words())
            + emb_encode(data@, intprec as int, maxbits as int, maxprec as int),
        r as int == emb_encode(data@, intprec as int, maxbits as int, maxprec as int).len(),
        r <= 32832,
{
    proof {
        lemma_emb_len_bound(data@, intprec as int, maxbits as int, maxprec as int, |j: int| false);
    }
    let size = data.len();
    let kmin: u32 = if intprec > maxprec { intprec - maxprec } else { 0 };
    let mut bits: u32 = maxbits;
    let mut n: usize = 0;
    let mut k: u32 = intprec;
    let ghost w0 = old(bs).spec_state().written(old(bs).spec_words());
    let ghost total = emb_encode(data@, intprec as int, maxbits as int, maxprec as int);
    let ghost len0 = old(bs).spec_words().len();
    proof {
        planes_bits_len(data@, intprec as int, kmin as int, 0, maxbits as int);
    }
    while bits != 0 && k > kmin
        invariant
            size == data@.len(),
            1 <= size <= 256,
            kmin <= k <= 64,
            kmin == lowest_plane(intprec as int, maxprec as int),
            k <= intprec,
            intprec == 32 || intprec == 64,
            n <= size,
            bits <= maxbits,
            bs.spec_state().wf(),
            bs.spec_words().len() == len0,
            bs.spec_state().written(bs.spec_words()) + planes_bits(data@, k as int, kmin as int, n as int, bits as int)
                == w0 + total,
            w0.len() + total.len() <= len0 * 64,
            bs.spec_state().write_offset() == bs.spec_state().written(bs.spec_words()).len(),
            w0.len() + maxbits - bits == bs.spec_state().written(bs.spec_words()).len(),
        decreases k,
    {
        k = k - 1;
        let ghost pb = plane_bits(data@, k as int, n as int, bits as int);
        let m: usize = if n < bits as usize { n } else { bits as usize };
        let ghost rest = planes_bits(data@, k as int, kmin as int, pb.1, pb.2);
        proof {
            let m2 = if n < bits { n as int } else { bits as int };
            group_bits_bounds(data@, k as int, n as int, bits - m2, false);
            planes_bits_len(data@, k as int, kmin as int, pb.1, pb.2);
        }
        let mut j: usize = 0;
        while j < m
            invariant
                size == data@.len(),
                1 <= size <= 256,
                m <= n <= size,
                m <= bits,
                j <= m,
                k < 64,
                bs.spec_state().wf(),
                bs.spec_words().len() == len0,
                bs.spec_state().written(bs.spec_words()) + Seq::new((m - j) as nat, |t: int| plane_bit(data@[j + t], k as int))
                    + group_bits(data@, k as int, n as int, bits - m, false).0 + rest == w0 + total,
                w0.len() + total.len() <= len0 * 64,
                bs.spec_state().write_offset() == bs.spec_state().written(bs.spec_words()).len(),
            decreases m - j,
        {
            let bb: u64 = (data[j] >> k as u64) & 1u64;
            let b: u32 = if bb == 1 { 1 } else { 0 };
            let ghost before = bs.spec_state().written(bs.spec_words());
            proof {
                let tail = Seq::new((m - j) as nat, |t: int| plane_bit(data@[j + t], k as int));
                let g = group_bits(data@, k as int, n as int, bits - m, false).0;
                assert((before + tail + g + rest).len() == before.len() + tail.len() + g.len() + rest.len());
                assert((w0 + total).len() == w0.len() + total.len());
            }
            bs.write_bit(b);
            proof {
                let tail = Seq::new((m - j) as nat, |t: int| plane_bit(data@[j + t], k as int));
                let tail2 = Seq::new((m - j - 1) as nat, |t: int| plane_bit(data@[j + 1 + t], k as int));
                assert(tail =~= seq![b == 1] + tail2);
                assert(before.push(b == 1) + tail2 =~= before + tail);
            }
            j = j + 1;
        }
        bits = bits - m as u32;
        let mut c: u32 = count_ones(data, k, n);
        let mut i: usize = n;
        let mut scanning = false;
        proof {
            assert(Seq::new(0nat, |t: int| plane_bit(data@[m + t], k as int)) =~= Seq::<bool>::empty());
        }
        loop
            invariant_except_break
                size == data@.len(),
                1 <= size <= 256,
                k < 64,
                i <= size,
                scanning ==> i < size,
                bits <= maxbits,
                c as int == ones_from(data@, k as int, i as int) - (if scanning { 1int } else { 0 }),
                bs.spec_state().wf(),
                bs.spec_words().len() == len0,
                group_bits(data@, k as int, i as int, bits as int, scanning).1 == pb.1,
                group_bits(data@, k as int, i as int, bits as int, scanning).2 == pb.2,
                bs.spec_state().written(bs.spec_words()) + group_bits(data@, k as int, i as int, bits as int, scanning).0
                    + rest == w0 + total,
                w0.len() + total.len() <= len0 * 64,
                bs.spec_state().write_offset() == bs.spec_state().written(bs.spec_words()).len(),
            ensures
                i <= size,
                bits <= maxbits,
                bs.spec_state().wf(),
                bs.spec_words().len() == len0,
                i == pb.1,
                bits == pb.2,
                bs.spec_state().written(bs.spec_words()) + rest == w0 + total,
                bs.spec_state().write_offset() == bs.spec_state().written(bs.spec_words()).len(),
            decreases 2 * (size - i) + (if scanning { 0int } else { 1 }),
        {
            proof {
                group_bits_bounds(data@, k as int, i as int, bits as int, scanning);
            }
            let ghost before = bs.spec_state().written(bs.spec_words());
            if !scanning {
                if bits == 0 || i >= size {
                    proof {
                        assert(before + Seq::<bool>::empty() =~= before);
                    }
                    break;
                }
                proof {
                    let g = group_bits(data@, k as int, i as int, bits as int, scanning).0;
                    assert(g.len() >= 1);
                    assert((before + g + rest).len() == before.len() + g.len() + rest.len());
                    assert((w0 + total).len() == w0.len() + total.len());
                }
                bits = bits - 1;
                let t: u32 = if c > 0 { 1 } else { 0 };
                bs.write_bit(t);
                if t == 0 {
                    proof {
                        assert(before.push(false) =~= before + seq![false]);
                    }
                    break;
                }
                proof {
                    assert(before.push(true) + group_bits(data@, k as int, i as int, bits as int, true).0
                        =~= before + (seq![true] + group_bits(data@, k as int, i as int, bits as int, true).0));
                }
                c = c - 1;
                scanning = true;
            } else {
                if bits == 0 || i + 1 >= size {
                    i = i + 1;
                    proof {
                        assert(before + Seq::<bool>::empty() =~= before);
                    }
                    break;
                }
                proof {
                    let g = group_bits(data@, k as int, i as int, bits as int, scanning).0;
                    assert(g.len() >= 1);
                    assert((before + g + rest).len() == before.len() + g.len() + rest.len());
                    assert((w0 + total).len() == w0.len() + total.len());
                }
                bits = bits - 1;
                let bb: u64 = (data[i] >> k as u64) & 1u64;
                let b: u32 = if bb == 1 { 1 } else { 0 };
                bs.write_bit(b);
                proof {
                    assert(before.push(b == 1) + group_bits(data@, k as int, i + 1, bits as int, b == 0).0
                        =~= before + (seq![b == 1] + group_bits(data@, k as int, i + 1, bits as int, b == 0).0));
                }
                i = i + 1;
                if b == 1 {
                    scanning = false;
                }
            }
        }
        n = i;
    }
    proof {
        let w = bs.spec_state().written(bs.spec_words());
        assert(w + Seq::<bool>::empty() =~= w);
    }
    maxbits - bits
}


/// The head of a plane as read: the values among `j..m` whose bit is one,
/// reading from position `pos` of `src` on.
pub open spec fn dec_head(src: spec_fn(int) -> bool, pos: int, j: int, m: int) -> Set<int>
    decreases m - j,
{
    if j >= m {
        Set::empty()
    } else {
        let r = dec_head(src, pos + 1, j + 1, m);
        if src(pos) {
            r.insert(j)
        } else {
            r
        }
    }
}

/// The group tests of a plane as read from position `pos` of `src`: the
/// values found to have their bit set, the first value not yet significant,
/// the bits left and the next position.
pub open spec fn dec_group(src: spec_fn(int) -> bool, size: int, i: int, bits: int, pos: int, scanning: bool) -> (Set<int>, int, int, int)
    decreases 2 * (size - i) + (if scanning { 0int } else { 1 }),
{
    if !scanning {
        if bits <= 0 || i >= size || i < 0 {
            (Set::empty(), i, bits, pos)
        } else if !src(pos) {
            (Set::empty(), i, bits - 1, pos + 1)
        } else {
            dec_group(src, size, i, bits - 1, pos + 1, true)
        }
    } else {
        if bits <= 0 || i + 1 >= size || i < 0 {
            (set![i], i + 1, bits, pos)
        } else if src(pos) {
            let r = dec_group(src, size, i + 1, bits - 1, pos + 1, false);
            (r.0.insert(i), r.1, r.2, r.3)
        } else {
            dec_group(src, size, i + 1, bits - 1, pos + 1, true)
        }
    }
}

/// A plane as read from position `pos` of `src` with `n` values significant
/// and `bits` to spend: the values whose bit is one, the values significant
/// afterwards, the bits left and the next position.
pub open spec fn dec_plane(src: spec_fn(int) -> bool, size: int, pos: int, n: int, bits: int) -> (Set<int>, int, int, int) {
    let m = if n < bits { n } else { bits };
    let g = dec_group(src, size, n, bits - m, pos + m, false);
    (dec_head(src, pos, 0, m).union(g.0), g.1, g.2, g.3)
}

/// `data` with bit `k` set in the values at the positions in `set`.
pub open spec fn set_plane(data: Seq<u64>, k: int, set: Set<int>) -> Seq<u64> {
    Seq::new(data.len(), |j: int| if set.contains(j) { data[j] | (1u64 << (k as u64)) } else { data[j] })
}

/// The planes below `k` down to `kmin` as read into `data`: the values, the
/// bits left and the next position.
pub open spec fn dec_planes(src: spec_fn(int) -> bool, data: Seq<u64>, k: int, kmin: int, n: int, bits: int, pos: int) -> (Seq<u64>, int, int)
    decreases k - kmin,
{
    if bits <= 0 || k <= kmin {
        (data, bits, pos)
    } else {
        let r = dec_plane(src, data.len() as int, pos, n, bits);
        dec_planes(src, set_plane(data, k - 1, r.0), k - 1, kmin, r.1, r.2, r.3)
    }
}

/// The `size` values (of `intprec` bits) that the bits `src` code in at most
/// `maxbits` bits and `maxprec` planes, and the number of bits read.
pub open spec fn emb_decode(src: spec_fn(int) -> bool, size: int, intprec: int, maxbits: int, maxprec: int) -> (Seq<u64>, int) {
    let r = dec_planes(src, Seq::new(size as nat, |j: int| 0u64), intprec, lowest_plane(intprec, maxprec), 0, maxbits, 0);
    (r.0, r.2)
}

proof fn or_idempotent(x: u64, b: u64)
    ensures
        (x | b) | b == x | b,
{
    assert((x | b) | b == x | b) by (bit_vector);
}

proof fn set_plane_insert(d: Seq<u64>, k: int, i: int, s: Set<int>)
    requires
        0 <= i < d.len(),
    ensures
        set_plane(d.update(i, d[i] | (1u64 << (k as u64))), k, s) == set_plane(d, k, s.insert(i)),
{
    let d2 = d.update(i, d[i] | (1u64 << (k as u64)));
    or_idempotent(d[i], 1u64 << (k as u64));
    assert(set_plane(d2, k, s) =~= set_plane(d, k, s.insert(i)));
}

proof fn dec_group_bounds(src: spec_fn(int) -> bool, size: int, i: int, bits: int, pos: int, scanning: bool)
    requires
        0 <= i <= size,
        bits >= 0,
        scanning ==> i < size,
    ensures
        ({
            let r = dec_group(src, size, i, bits, pos, scanning);
            &&& i <= r.1 <= size
            &&& 0 <= r.2 <= bits
            &&& r.3 == pos + (bits - r.2)
            &&& forall|j: int| r.0.contains(j) ==> 0 <= j < size
        }),
    decreases 2 * (size - i) + (if scanning { 0int } else { 1 }),
{
    if !scanning {
        if bits <= 0 || i >= size {
        } else if !src(pos) {
        } else {
            dec_group_bounds(src, size, i, bits - 1, pos + 1, true);
        }
    } else {
        if bits <= 0 || i + 1 >= size {
        } else if src(pos) {
            dec_group_bounds(src, size, i + 1, bits - 1, pos + 1, false);
        } else {
            dec_group_bounds(src, size, i + 1, bits - 1, pos + 1, true);
        }
    }
}

/// A group test or scanned bit about to be read lies before the position
/// that the rest of the planes end at.
proof fn dec_group_next(
    src: spec_fn(int) -> bool,
    size: int,
    i: int,
    bits: int,
    pos: int,
    scanning: bool,
    data: Seq<u64>,
    k: int,
    kmin: int,
)
    requires
        0 <= i < size,
        bits > 0,
        scanning ==> i + 1 < size,
        data.len() == size,
        kmin <= k,
    ensures
        ({
            let h = dec_group(src, size, i, bits, pos, scanning);
            pos + 1 <= h.3 <= dec_planes(src, data, k, kmin, h.1, h.2, h.3).2
        }),
{
    dec_group_bounds(src, size, i, bits, pos, scanning);
    let h = dec_group(src, size, i, bits, pos, scanning);
    dec_planes_len_bound(src, data, k, kmin, h.1, h.2, h.3);
    if !scanning {
        if src(pos) {
            dec_group_bounds(src, size, i, bits - 1, pos + 1, true);
        }
    } else {
        if src(pos) {
            dec_group_bounds(src, size, i + 1, bits - 1, pos + 1, false);
        } else {
            dec_group_bounds(src, size, i + 1, bits - 1, pos + 1, true);
        }
    }
}

/// Read `data.len()` values (of `intprec` bits, at most 256 of them) coded in
/// at most `maxbits` bits and `maxprec` planes; return the number of bits read.
pub fn decode_ints<S: ZfpBitStreamOps>(
    bs: &mut S,
    maxbits: u32,
    maxprec: u32,
    intprec: u32,
    data: &mut [u64],
    Ghost(src): Ghost<spec_fn(int) -> bool>,
) -> (r: u32)
    requires
        old(bs).spec_state().wf(),
        forall|j: int| 0 <= j ==> #[trigger] old(bs).spec_state().pending(old(bs).spec_words(), j) == src(j),
        intprec == 32 || intprec == 64,
        1 <= old(data)@.len() <= 256,
    ensures
        ({
            let d = emb_decode(src, old(data)@.len() as int, intprec as int, maxbits as int, maxprec as int);
            &&& final(data)@ == d.0
            &&& r as int == d.1
            &&& forall|j: int| 0 <= j ==> #[trigger] final(bs).spec_state().pending(final(bs).spec_words(), j) == src(r + j)
        }),
        final(bs).spec_state().wf(),
        final(bs).spec_words() == old(bs).spec_words(),
        final(data)@.len() == old(data)@.len(),
        r <= 32832,
        reads_within(old(bs).spec_words(), old(bs).spec_state(), r as int) ==> final(bs).spec_state().read_offset()
            == old(bs).spec_state().read_offset() + r,
{
    proof {
        lemma_emb_len_bound(Seq::new(old(data)@.len(), |j: int| 0u64), intprec as int, maxbits as int, maxprec as int, src);
    }
    let size = data.len();
    let ghost words = bs.spec_words();
    let ghost s0 = bs.spec_state();
    let ghost fin = dec_planes(src, Seq::new(size as nat, |j: int| 0u64), intprec as int,
        lowest_plane(intprec as int, maxprec as int), 0, maxbits as int, 0);
    let mut z: usize = 0;
    while z < size
        invariant
            size == data@.len(),
            z <= size,
            forall|t: int| 0 <= t < z ==> #[trigger] data@[t] == 0u64,
        decreases size - z,
    {
        data[z] = 0;
        z = z + 1;
    }
    proof {
        assert(data@ =~= Seq::new(size as nat, |j: int| 0u64));
    }
    let kmin: u32 = if intprec > maxprec { intprec - maxprec } else { 0 };
    let mut bits: u32 = maxbits;
    let mut n: usize = 0;
    let mut k: u32 = intprec;
    let ghost mut pos: int = 0;
    while bits != 0 && k > kmin
        invariant
            size == data@.len(),
            1 <= size <= 256,
            kmin <= k <= 64,
            kmin == lowest_plane(intprec as int, maxprec as int),
            k <= intprec,
            intprec == 32 || intprec == 64,
            n <= size,
            bits <= maxbits,
            pos == maxbits - bits,
            bs.spec_state().wf(),
            bs.spec_words() == words,
            forall|j: int| 0 <= j ==> #[trigger] bs.spec_state().pending(words, j) == src(pos + j),
            dec_planes(src, data@, k as int, kmin as int, n as int, bits as int, pos) == fin,
            reads_within(words, s0, fin.2) ==> bs.spec_state().read_offset() == s0.read_offset() + pos,
        decreases k,
    {
        k = k - 1;
        let m: usize = if n < bits as usize { n } else { bits as usize };
        let ghost b0 = bits as int;
        let ghost g = dec_group(src, size as int, n as int, b0 - m, pos + m, false);
        proof {
            dec_group_bounds(src, size as int, n as int, b0 - m, pos + m, false);
        }
        let mut j: usize = 0;
        while j < m
            invariant
                size == data@.len(),
                1 <= size <= 256,
                m <= n <= size,
                m <= b0,
                j <= m,
                k < 64,
                bs.spec_state().wf(),
                bs.spec_words() == words,
                forall|t: int| 0 <= t ==> #[trigger] bs.spec_state().pending(words, t) == src(pos + j + t),
                g == dec_group(src, size as int, n as int, b0 - m, pos + m, false),
                dec_planes(src, set_plane(data@, k as int, dec_head(src, pos + j, j as int, m as int).union(g.0)), k as int,
                    kmin as int, g.1, g.2, g.3) == fin,
                reads_within(words, s0, fin.2) ==> bs.spec_state().read_offset() == s0.read_offset() + pos + j,
                kmin <= k,
                0 <= pos,
            decreases m - j,
        {
            let ghost d0 = data@;
            let ghost p = pos + j;
            proof {
                if reads_within(words, s0, fin.2) {
                    dec_group_bounds(src, size as int, n as int, b0 - m, pos + m, false);
                    dec_planes_len_bound(src, set_plane(data@, k as int, dec_head(src, pos + j, j as int, m as int).union(g.0)),
                        k as int, kmin as int, g.1, g.2, g.3);
                    lemma_reads_within(words, bs.spec_state(), fin.2 - (pos + j), 1);
                }
            }
            let b = bs.read_bit();
            if b == 1 {
                data[j] = data[j] | (1u64 << k as u64);
                proof {
                    let rest = dec_head(src, p + 1, j + 1, m as int);
                    set_plane_insert(d0, k as int, j as int, rest.union(g.0));
                    assert(rest.union(g.0).insert(j as int) =~= dec_head(src, p, j as int, m as int).union(g.0));
                }
            }
            j = j + 1;
        }
        proof {
            pos = pos + m;
            assert(dec_head(src, pos, m as int, m as int) =~= Set::<int>::empty());
            assert(Set::<int>::empty().union(g.0) =~= g.0);
        }
        bits = bits - m as u32;
        let mut i: usize = n;
        let mut scanning = false;
        loop
            invariant_except_break
                size == data@.len(),
                1 <= size <= 256,
                k < 64,
                i <= size,
                scanning ==> i < size,
                bits <= maxbits,
                pos == maxbits - bits,
                bs.spec_state().wf(),
                bs.spec_words() == words,
                forall|t: int| 0 <= t ==> #[trigger] bs.spec_state().pending(words, t) == src(pos + t),
                ({
                    let h = dec_group(src, size as int, i as int, bits as int, pos, scanning);
                    &&& h.1 == g.1
                    &&& h.2 == g.2
                    &&& h.3 == g.3
                    &&& dec_planes(src, set_plane(data@, k as int, h.0), k as int, kmin as int, g.1, g.2, g.3)
                        == fin
                }),
                reads_within(words, s0, fin.2) ==> bs.spec_state().read_offset() == s0.read_offset() + pos,
                kmin <= k,
            ensures
                size == data@.len(),
                i <= size,
                bits <= maxbits,
                pos == maxbits - bits,
                bs.spec_state().wf(),
                bs.spec_words() == words,
                forall|t: int| 0 <= t ==> #[trigger] bs.spec_state().pending(words, t) == src(pos + t),
                dec_planes(src, data@, k as int, kmin as int, i as int, bits as int, pos) == fin,
                reads_within(words, s0, fin.2) ==> bs.spec_state().read_offset() == s0.read_offset() + pos,
            decreases 2 * (size - i) + (if scanning { 0int } else { 1 }),
        {
            let ghost d0 = data@;
            if !scanning {
                if bits == 0 || i >= size {
                    proof {
                        assert(set_plane(d0, k as int, Set::empty()) =~= d0);
                    }
                    break;
                }
                proof {
                    if reads_within(words, s0, fin.2) {
                        dec_group_next(src, size as int, i as int, bits as int, pos, false,
                            set_plane(data@, k as int, dec_group(src, size as int, i as int, bits as int, pos, false).0),
                            k as int, kmin as int);
                        lemma_reads_within(words, bs.spec_state(), fin.2 - pos, 1);
                    }
                }
                bits = bits - 1;
                let t = bs.read_bit();
                proof {
                    pos = pos + 1;
                }
                if t == 0 {
                    proof {
                        assert(set_plane(d0, k as int, Set::empty()) =~= d0);
                    }
                    break;
                }
                scanning = true;
            } else {
                if bits == 0 || i + 1 >= size {
                    data[i] = data[i] | (1u64 << k as u64);
                    proof {
                        set_plane_insert(d0, k as int, i as int, Set::empty());
                        assert(Set::<int>::empty().insert(i as int) =~= set![i as int]);
                        assert(set_plane(data@, k as int, Set::empty()) =~= data@);
                    }
                    i = i + 1;
                    break;
                }
                proof {
                    if reads_within(words, s0, fin.2) {
                        dec_group_next(src, size as int, i as int, bits as int, pos, true,
                            set_plane(data@, k as int, dec_group(src, size as int, i as int, bits as int, pos, true).0),
                            k as int, kmin as int);
                        lemma_reads_within(words, bs.spec_state(), fin.2 - pos, 1);
                    }
                }
                bits = bits - 1;
                let b = bs.read_bit();
                proof {
                    pos = pos + 1;
                }
                if b == 1 {
                    data[i] = data[i] | (1u64 << k as u64);
                    proof {
                        let r = dec_group(src, size as int, i + 1, bits as int, pos, false);
                        set_plane_insert(d0, k as int, i as int, r.0);
                    }
                    scanning = false;
                }
                i = i + 1;
            }
        }
        n = i;
    }
    maxbits - bits
}


/// The values of `data[i..]` with bit `k` set.
pub open spec fn ones_set(data: Seq<u64>, k: int, i: int) -> Set<int> {
    Set::new(|j: int| i <= j < data.len() && plane_bit(data[j], k))
}

pub proof fn ones_from_zero(data: Seq<u64>, k: int, i: int)
    requires
        0 <= i <= data.len(),
    ensures
        ones_from(data, k, i) >= 0,
        ones_from(data, k, i) == 0 <==> ones_set(data, k, i) =~= Set::empty(),
    decreases data.len() - i,
{
    if i < data.len() {
        ones_from_zero(data, k, i + 1);
        if plane_bit(data[i], k) {
            assert(ones_set(data, k, i).contains(i));
        } else {
            assert(ones_set(data, k, i) =~= ones_set(data, k, i + 1));
        }
    } else {
        assert(ones_set(data, k, i) =~= Set::empty());
    }
}

proof fn group_roundtrip(data: Seq<u64>, k: int, i: int, bits: int, scanning: bool, src: spec_fn(int) -> bool, pos: int)
    requires
        0 <= i <= data.len(),
        bits >= 0,
        scanning ==> i < data.len() && ones_from(data, k, i) >= 1,
        forall|t: int| 0 <= t < group_bits(data, k, i, bits, scanning).0.len() ==> src(pos + t) == #[trigger] group_bits(data, k, i, bits, scanning).0[t],
    ensures
        ({
            let g = group_bits(data, k, i, bits, scanning);
            let d = dec_group(src, data.len() as int, i, bits, pos, scanning);
            &&& d.1 == g.1
            &&& d.2 == g.2
            &&& d.3 == pos + g.0.len()
            &&& g.2 > 0 ==> d.0 =~= ones_set(data, k, i)
        }),
    decreases 2 * (data.len() - i) + (if scanning { 0int } else { 1 }),
{
    let size = data.len() as int;
    group_bits_bounds(data, k, i, bits, scanning);
    ones_from_zero(data, k, i);
    if !scanning {
        if bits <= 0 || i >= size {
            if i >= size {
                assert(ones_set(data, k, i) =~= Set::empty());
            }
        } else if ones_from(data, k, i) == 0 {
            assert(src(pos + 0) == group_bits(data, k, i, bits, scanning).0[0]);
        } else {
            let g1 = group_bits(data, k, i, bits - 1, true);
            assert(src(pos + 0) == group_bits(data, k, i, bits, scanning).0[0]);
            assert forall|t: int| 0 <= t < g1.0.len() implies src(pos + 1 + t) == #[trigger] g1.0[t] by {
                assert(src(pos + (t + 1)) == group_bits(data, k, i, bits, scanning).0[t + 1]);
            }
            group_roundtrip(data, k, i, bits - 1, true, src, pos + 1);
        }
    } else {
        if bits <= 0 || i + 1 >= size {
            if bits > 0 {
                assert(ones_from(data, k, i) == (if plane_bit(data[i], k) { 1int } else { 0 }) + ones_from(data, k, i + 1));
                assert(ones_from(data, k, i + 1) == 0);
                assert(plane_bit(data[i], k));
                assert(ones_set(data, k, i) =~= set![i]);
            }
        } else {
            assert(src(pos + 0) == group_bits(data, k, i, bits, scanning).0[0]);
            let b = plane_bit(data[i], k);
            let g1 = group_bits(data, k, i + 1, bits - 1, !b);
            assert forall|t: int| 0 <= t < g1.0.len() implies src(pos + 1 + t) == #[trigger] g1.0[t] by {
                assert(src(pos + (t + 1)) == group_bits(data, k, i, bits, scanning).0[t + 1]);
            }
            assert(ones_from(data, k, i) == (if b { 1int } else { 0 }) + ones_from(data, k, i + 1));
            group_roundtrip(data, k, i + 1, bits - 1, !b, src, pos + 1);
            if b {
                assert(ones_set(data, k, i + 1).insert(i) =~= ones_set(data, k, i));
            } else {
                assert(ones_set(data, k, i + 1) =~= ones_set(data, k, i));
            }
        }
    }
}


proof fn head_roundtrip(data: Seq<u64>, k: int, src: spec_fn(int) -> bool, pos: int, j: int, m: int)
    requires
        0 <= j <= m <= data.len(),
        forall|t: int| j <= t < m ==> src(pos + (t - j)) == plane_bit(data[t], k),
    ensures
        dec_head(src, pos, j, m) =~= Set::new(|t: int| j <= t < m && plane_bit(data[t], k)),
    decreases m - j,
{
    if j < m {
        assert(src(pos + (j - j)) == plane_bit(data[j], k));
        assert forall|t: int| j + 1 <= t < m implies src(pos + 1 + (t - (j + 1))) == plane_bit(data[t], k) by {
            assert(src(pos + (t - j)) == plane_bit(data[t], k));
        }
        head_roundtrip(data, k, src, pos + 1, j + 1, m);
    }
}

/// `d` with the bit planes `kmin..k` of `data` or-ed in.
pub open spec fn or_planes(d: Seq<u64>, data: Seq<u64>, k: int, kmin: int) -> Seq<u64>
    decreases k - kmin,
{
    if k <= kmin {
        d
    } else {
        or_planes(set_plane(d, k - 1, ones_set(data, k - 1, 0)), data, k - 1, kmin)
    }
}

proof fn planes_roundtrip(data: Seq<u64>, k: int, kmin: int, n: int, bits: int, src: spec_fn(int) -> bool, pos: int, d: Seq<u64>)
    requires
        0 <= n <= data.len(),
        bits >= 0,
        d.len() == data.len(),
        forall|t: int| 0 <= t < planes_bits(data, k, kmin, n, bits).len() ==> src(pos + t) == #[trigger] planes_bits(data, k, kmin, n, bits)[t],
    ensures
        ({
            let e = planes_bits(data, k, kmin, n, bits);
            let r = dec_planes(src, d, k, kmin, n, bits, pos);
            &&& r.2 == pos + e.len()
            &&& e.len() < bits ==> r.0 == or_planes(d, data, k, kmin)
        }),
    decreases k - kmin,
{
    if bits <= 0 || k <= kmin {
    } else {
        let size = data.len() as int;
        let p = plane_bits(data, k - 1, n, bits);
        let m = if n < bits { n } else { bits };
        let g = group_bits(data, k - 1, n, bits - m, false);
        group_bits_bounds(data, k - 1, n, bits - m, false);
        let rest = planes_bits(data, k - 1, kmin, p.1, p.2);
        let e = planes_bits(data, k, kmin, n, bits);
        assert(e == p.0 + rest);
        assert(p.0 == Seq::new(m as nat, |j: int| plane_bit(data[j], k - 1)) + g.0);
        assert(p.0.len() == m + g.0.len());
        assert forall|t: int| 0 <= t < m implies src(pos + (t - 0)) == plane_bit(data[t], k - 1) by {
            assert(src(pos + t) == e[t]);
        }
        head_roundtrip(data, k - 1, src, pos, 0, m);
        assert forall|t: int| 0 <= t < g.0.len() implies src(pos + m + t) == #[trigger] g.0[t] by {
            assert(src(pos + (m + t)) == e[m + t]);
        }
        group_roundtrip(data, k - 1, n, bits - m, false, src, pos + m);
        let dp = dec_plane(src, size, pos, n, bits);
        assert forall|t: int| 0 <= t < rest.len() implies src(pos + p.0.len() + t) == #[trigger] rest[t] by {
            assert(src(pos + (p.0.len() + t)) == e[p.0.len() + t]);
        }
        planes_bits_len(data, k - 1, kmin, p.1, p.2);
        if e.len() < bits {
            assert(m == n);
            assert(dp.0 =~= ones_set(data, k - 1, 0));
        }
        planes_roundtrip(data, k - 1, kmin, p.1, p.2, src, pos + p.0.len(), set_plane(d, k - 1, dp.0));
    }
}

proof fn or_bit(x: u64, k: u64, p: u64)
    requires
        k < 64,
        p < 64,
    ensures
        ((x | (1u64 << k)) >> p) & 1u64 == 1u64 <==> ((x >> p) & 1u64 == 1u64 || p == k),
{
    assert(((x | (1u64 << k)) >> p) & 1u64 == 1u64 <==> ((x >> p) & 1u64 == 1u64 || p == k)) by (bit_vector)
        requires
            k < 64,
            p < 64,
    ;
}

proof fn zero_bit(p: u64)
    ensures
        !((0u64 >> p) & 1u64 == 1u64),
{
    assert(!((0u64 >> p) & 1u64 == 1u64)) by (bit_vector);
}

proof fn or_planes_bits(d: Seq<u64>, data: Seq<u64>, k: int, kmin: int, j: int, p: int)
    requires
        d.len() == data.len(),
        0 <= j < data.len(),
        0 <= p < 64,
        0 <= kmin,
        k <= 64,
    ensures
        plane_bit(or_planes(d, data, k, kmin)[j], p) <==> (plane_bit(d[j], p) || (kmin <= p < k && plane_bit(data[j], p))),
    decreases k - kmin,
{
    if k > kmin {
        let d2 = set_plane(d, k - 1, ones_set(data, k - 1, 0));
        or_planes_bits(d2, data, k - 1, kmin, j, p);
        if ones_set(data, k - 1, 0).contains(j) {
            or_bit(d[j], (k - 1) as u64, p as u64);
        }
    }
}

/// Decoding reads back exactly the bits that encoding wrote, and, when the
/// bit budget was not used up, it gives back every coded bit plane of every
/// value: bit `p` of value `j` is decoded as one exactly when `p` is among
/// the coded planes and bit `p` of `data[j]` is one.
pub proof fn lemma_emb_roundtrip(data: Seq<u64>, intprec: int, maxbits: int, maxprec: int, src: spec_fn(int) -> bool)
    requires
        intprec == 32 || intprec == 64,
        maxbits >= 0,
        1 <= data.len(),
        forall|t: int| 0 <= t < emb_encode(data, intprec, maxbits, maxprec).len() ==> src(t)
            == #[trigger] emb_encode(data, intprec, maxbits, maxprec)[t],
    ensures
        ({
            let e = emb_encode(data, intprec, maxbits, maxprec);
            let d = emb_decode(src, data.len() as int, intprec, maxbits, maxprec);
            &&& d.1 == e.len()
            &&& e.len() < maxbits ==> forall|j: int, p: int|
                0 <= j < data.len() && 0 <= p < 64 ==> (#[trigger] plane_bit(d.0[j], p) <==> (lowest_plane(intprec, maxprec)
                    <= p < intprec && plane_bit(data[j], p)))
        }),
{
    let zeros = Seq::new(data.len(), |j: int| 0u64);
    let kmin = lowest_plane(intprec, maxprec);
    assert forall|t: int| 0 <= t < planes_bits(data, intprec, kmin, 0, maxbits).len() implies src(0 + t)
        == #[trigger] planes_bits(data, intprec, kmin, 0, maxbits)[t] by {
        assert(src(t) == emb_encode(data, intprec, maxbits, maxprec)[t]);
    }
    planes_roundtrip(data, intprec, kmin, 0, maxbits, src, 0, zeros);
    let e = emb_encode(data, intprec, maxbits, maxprec);
    if e.len() < maxbits {
        assert forall|j: int, p: int|
            0 <= j < data.len() && 0 <= p < 64 implies (#[trigger] plane_bit(emb_decode(src, data.len() as int, intprec, maxbits, maxprec).0[j], p)
                <==> (kmin <= p < intprec && plane_bit(data[j], p))) by {
            or_planes_bits(zeros, data, intprec, kmin, j, p);
            zero_bit(p as u64);
        }
    }
}


proof fn group_len_bound(data: Seq<u64>, k: int, i: int, bits: int, scanning: bool)
    requires
        0 <= i <= data.len(),
        bits >= 0,
        scanning ==> i < data.len(),
    ensures
        group_bits(data, k, i, bits, scanning).0.len() <= 2 * (data.len() - i) + (if scanning { 0int } else { 1 }),
    decreases 2 * (data.len() - i) + (if scanning { 0int } else { 1 }),
{
    if !scanning {
        if bits <= 0 || i >= data.len() {
        } else if ones_from(data, k, i) == 0 {
        } else {
            group_len_bound(data, k, i, bits - 1, true);
        }
    } else {
        if bits <= 0 || i + 1 >= data.len() {
        } else if plane_bit(data[i], k) {
            group_len_bound(data, k, i + 1, bits - 1, false);
        } else {
            group_len_bound(data, k, i + 1, bits - 1, true);
        }
    }
}

proof fn planes_len_bound(data: Seq<u64>, k: int, kmin: int, n: int, bits: int)
    requires
        0 <= n <= data.len(),
        bits >= 0,
        kmin <= k,
    ensures
        planes_bits(data, k, kmin, n, bits).len() <= (k - kmin) * (2 * data.len() + 1),
    decreases k - kmin,
{
    if bits <= 0 || k <= kmin {
    } else {
        let m = if n < bits { n } else { bits };
        group_len_bound(data, k - 1, n, bits - m, false);
        group_bits_bounds(data, k - 1, n, bits - m, false);
        let r = plane_bits(data, k - 1, n, bits);
        planes_len_bound(data, k - 1, kmin, r.1, r.2);
        assert((k - kmin) * (2 * data.len() + 1) == (k - 1 - kmin) * (2 * data.len() + 1) + (2 * data.len() + 1))
            by (nonlinear_arith);
    }
}

proof fn dec_group_len_bound(src: spec_fn(int) -> bool, size: int, i: int, bits: int, pos: int, scanning: bool)
    requires
        0 <= i <= size,
        bits >= 0,
        scanning ==> i < size,
    ensures
        bits - dec_group(src, size, i, bits, pos, scanning).2 <= 2 * (size - i) + (if scanning { 0int } else { 1 }),
    decreases 2 * (size - i) + (if scanning { 0int } else { 1 }),
{
    if !scanning {
        if bits <= 0 || i >= size {
        } else if !src(pos) {
        } else {
            dec_group_len_bound(src, size, i, bits - 1, pos + 1, true);
        }
    } else {
        if bits <= 0 || i + 1 >= size {
        } else if src(pos) {
            dec_group_len_bound(src, size, i + 1, bits - 1, pos + 1, false);
        } else {
            dec_group_len_bound(src, size, i + 1, bits - 1, pos + 1, true);
        }
    }
}

proof fn dec_planes_len_bound(src: spec_fn(int) -> bool, data: Seq<u64>, k: int, kmin: int, n: int, bits: int, pos: int)
    requires
        0 <= n <= data.len(),
        bits >= 0,
        kmin <= k,
    ensures
        ({
            let r = dec_planes(src, data, k, kmin, n, bits, pos);
            &&& r.2 == pos + (bits - r.1)
            &&& 0 <= r.1 <= bits
            &&& bits - r.1 <= (k - kmin) * (2 * data.len() + 1)
        }),
    decreases k - kmin,
{
    if bits <= 0 || k <= kmin {
    } else {
        let size = data.len() as int;
        let m = if n < bits { n } else { bits };
        dec_group_len_bound(src, size, n, bits - m, pos + m, false);
        dec_group_bounds(src, size, n, bits - m, pos + m, false);
        let r = dec_plane(src, size, pos, n, bits);
        let d2 = set_plane(data, k - 1, r.0);
        dec_planes_len_bound(src, d2, k - 1, kmin, r.1, r.2, r.3);
        assert((k - kmin) * (2 * size + 1) == (k - 1 - kmin) * (2 * size + 1) + (2 * size + 1)) by (nonlinear_arith);
    }
}

/// The embedded code of a block never exceeds 64 planes of `2 * size + 1` bits.
pub proof fn lemma_emb_len_bound(data: Seq<u64>, intprec: int, maxbits: int, maxprec: int, src: spec_fn(int) -> bool)
    requires
        intprec == 32 || intprec == 64,
        maxbits >= 0,
        maxprec >= 0,
        1 <= data.len() <= 256,
    ensures
        emb_encode(data, intprec, maxbits, maxprec).len() <= 32832,
        0 <= emb_decode(src, data.len() as int, intprec, maxbits, maxprec).1 <= 32832,
{
    let kmin = lowest_plane(intprec, maxprec);
    planes_len_bound(data, intprec, kmin, 0, maxbits);
    let zeros = Seq::new(data.len(), |j: int| 0u64);
    dec_planes_len_bound(src, zeros, intprec, kmin, 0, maxbits, 0);
    assert((intprec - kmin) * (2 * data.len() + 1) <= 64 * 513) by (nonlinear_arith)
        requires
            0 <= intprec - kmin <= 64,
            data.len() <= 256,
    ;
}


/// Decoding keeps the number of values.
pub proof fn lemma_dec_planes_len(src: spec_fn(int) -> bool, data: Seq<u64>, k: int, kmin: int, n: int, bits: int, pos: int)
    ensures
        dec_planes(src, data, k, kmin, n, bits, pos).0.len() == data.len(),
    decreases k - kmin,
{
    if bits <= 0 || k <= kmin {
    } else {
        let r = dec_plane(src, data.len() as int, pos, n, bits);
        lemma_dec_planes_len(src, set_plane(data, k - 1, r.0), k - 1, kmin, r.1, r.2, r.3);
    }
}


/// The embedded code of a block never exceeds its bit budget.
pub proof fn lemma_emb_within_budget(data: Seq<u64>, intprec: int, maxbits: int, maxprec: int)
    requires
        maxbits >= 0,
    ensures
        emb_encode(data, intprec, maxbits, maxprec).len() <= maxbits,
{
    planes_bits_len(data, intprec, lowest_plane(intprec, maxprec), 0, maxbits);
}

/// The group tests of a plane send at most two bits per value they make
/// significant and one closing test; a group that runs to the last value
/// saves two of them, as the last value's bit is implied.
proof fn group_advance_bound(data: Seq<u64>, k: int, i: int, bits: int, scanning: bool)
    requires
        0 <= i <= data.len(),
        bits >= 0,
        scanning ==> i < data.len(),
    ensures
        ({
            let r = group_bits(data, k, i, bits, scanning);
            let size = data.len() as int;
            if scanning {
                r.0.len() <= 2 * (r.1 - i) - (if r.1 >= size { 2int } else { 0 })
            } else {
                r.0.len() <= 2 * (r.1 - i) + 1 - (if r.1 >= size && i < size { 2int } else { 0 })
            }
        }),
    decreases 2 * (data.len() - i) + (if scanning { 0int } else { 1 }),
{
    if !scanning {
        if bits <= 0 || i >= data.len() {
        } else if ones_from(data, k, i) == 0 {
        } else {
            group_advance_bound(data, k, i, bits - 1, true);
        }
    } else {
        if bits <= 0 || i + 1 >= data.len() {
        } else if plane_bit(data[i], k) {
            group_advance_bound(data, k, i + 1, bits - 1, false);
        } else {
            group_advance_bound(data, k, i + 1, bits - 1, true);
        }
    }
}

/// A plane sends the bits of the values already significant, and at most two
/// bits per value it makes significant besides one closing test.
proof fn plane_advance_bound(data: Seq<u64>, k: int, n: int, bits: int)
    requires
        0 <= n <= data.len(),
        bits >= 0,
    ensures
        ({
            let r = plane_bits(data, k, n, bits);
            let size = data.len() as int;
            &&& n <= r.1 <= size
            &&& r.0.len() <= n + 2 * (r.1 - n) + (if r.1 < size { 1int } else if n < size { -1int } else { 0 })
        }),
{
    let m = if n < bits { n } else { bits };
    group_bits_bounds(data, k, n, bits - m, false);
    group_advance_bound(data, k, n, bits - m, false);
}

/// Coding `k - kmin` planes of `size` values from `n` significant ones sends
/// at most `k - kmin` times `size` bits, and `size - 1 - n` more while not
/// all values are significant.
proof fn planes_advance_bound(data: Seq<u64>, k: int, kmin: int, n: int, bits: int)
    requires
        0 <= n <= data.len(),
        bits >= 0,
        kmin <= k,
    ensures
        planes_bits(data, k, kmin, n, bits).len() <= (k - kmin) * data.len() + (if n < data.len() {
            data.len() - 1 - n
        } else {
            0int
        }),
    decreases k - kmin,
{
    let size = data.len() as int;
    assert((k - kmin) * size >= 0) by (nonlinear_arith)
        requires
            k - kmin >= 0,
            size >= 0,
    ;
    if bits <= 0 || k <= kmin {
    } else {
        plane_advance_bound(data, k - 1, n, bits);
        let m = if n < bits { n } else { bits };
        group_bits_bounds(data, k - 1, n, bits - m, false);
        let r = plane_bits(data, k - 1, n, bits);
        planes_advance_bound(data, k - 1, kmin, r.1, r.2);
        assert((k - kmin) * size == (k - 1 - kmin) * size + size) by (nonlinear_arith);
    }
}

/// At most `p` planes of `size` values take at most `(p + 1) * size - 1`
/// bits, where `p` is the number of planes that `maxprec` lets through.
pub proof fn lemma_emb_plane_bound(data: Seq<u64>, intprec: int, maxbits: int, maxprec: int)
    requires
        1 <= data.len(),
        0 <= intprec,
        0 <= maxprec,
        maxbits >= 0,
    ensures
        emb_encode(data, intprec, maxbits, maxprec).len() <= (intprec - lowest_plane(intprec, maxprec) + 1)
            * data.len() - 1,
        intprec - lowest_plane(intprec, maxprec) <= maxprec,
{
    let kmin = lowest_plane(intprec, maxprec);
    planes_advance_bound(data, intprec, kmin, 0, maxbits);
    assert((intprec - kmin + 1) * data.len() == (intprec - kmin) * data.len() + data.len()) by (nonlinear_arith);
}

} // verus!
