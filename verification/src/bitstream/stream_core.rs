//! Bit-level stream operations shared by the owned and borrowed bit streams.
//!
//! A stream is a word buffer plus a [`BitStreamState`]. Writing appends bits
//! least-significant first into a partial word (`buffer`, holding `bits`
//! valid bits) that is stored at `word_pos` once it fills. Reading consumes
//! bits from the same partial word and loads the next word when it runs dry.

use vstd::prelude::*;

verus! {

/// Bits per stream word.
pub const WSIZE: u32 = 64;

/// Cursor of a bit stream: the next word index, the partial word and its bit count.
#[derive(Clone, Copy)]
pub struct BitStreamState {
    pub word_pos: usize,
    pub buffer: u64,
    pub bits: u32,
}

/// Bit `i` (least significant first) of a word.
pub open spec fn word_bit(w: u64, i: int) -> bool {
    (w >> (i as u64)) & 1u64 == 1u64
}

/// Bit `p` of the stream stored in `words`; bits past the end of the buffer read as zero.
pub open spec fn stream_bit(words: Seq<u64>, p: int) -> bool {
    if 0 <= p && p / 64 < words.len() {
        word_bit(words[p / 64], p % 64)
    } else {
        false
    }
}

/// The low `n` bits of `value`, least significant first.
pub open spec fn low_bits(value: u64, n: nat) -> Seq<bool> {
    Seq::new(n, |j: int| word_bit(value, j))
}

/// `n` zero bits.
pub open spec fn zero_bits(n: nat) -> Seq<bool> {
    Seq::new(n, |j: int| false)
}

/// The first `n` bits stored in `words`.
pub open spec fn stored_bits(words: Seq<u64>, n: nat) -> Seq<bool> {
    Seq::new(n, |p: int| stream_bit(words, p))
}

/// Whether `n` more bits fit after the write cursor of `s` in `words`.
pub open spec fn has_room(s: BitStreamState, words: Seq<u64>, n: int) -> bool {
    s.write_offset() + n <= words.len() * 64
}

/// `2^64`, the modulus of the 64-bit stream offsets.
pub open spec fn offset_modulus() -> int {
    0x1_0000_0000_0000_0000
}

impl BitStreamState {
    /// The cursor at the start of the stream.
    pub open spec fn spec_new() -> BitStreamState {
        BitStreamState { word_pos: 0, buffer: 0, bits: 0 }
    }

    /// The partial word holds fewer than 64 bits and nothing above them.
    pub open spec fn wf(self) -> bool {
        self.bits < 64 && self.buffer >> (self.bits as u64) == 0
    }

    /// Bit offset of the write cursor.
    pub open spec fn write_offset(self) -> int {
        self.word_pos * 64 + self.bits
    }

    /// Bit offset of the read cursor.
    pub open spec fn read_offset(self) -> int {
        self.word_pos * 64 - self.bits
    }

    /// Everything written so far: the stored words before `word_pos` and then the partial word.
    pub open spec fn written(self, words: Seq<u64>) -> Seq<bool> {
        Seq::new(
            self.write_offset() as nat,
            |p: int|
                if p < self.word_pos * 64 {
                    stream_bit(words, p)
                } else {
                    word_bit(self.buffer, p - self.word_pos * 64)
                },
        )
    }

    /// Bit `j` of what the read cursor delivers next: the rest of the partial word,
    /// then the stored words from `word_pos` on.
    pub open spec fn pending(self, words: Seq<u64>, j: int) -> bool {
        if j < self.bits {
            word_bit(self.buffer, j)
        } else {
            stream_bit(words, self.word_pos * 64 + j - self.bits)
        }
    }

    /// The cursor `seek_read(offset)` produces on `words`.
    pub open spec fn reads_from(self, words: Seq<u64>, offset: int) -> bool {
        &&& self.wf()
        &&& forall|j: int| 0 <= j ==> #[trigger] self.pending(words, j) == stream_bit(words, offset + j)
    }

    /// Create a cursor at the start of the stream.
    pub fn new() -> (r: BitStreamState)
        ensures
            r == BitStreamState::spec_new(),
    {
        BitStreamState { word_pos: 0, buffer: 0, bits: 0 }
    }
}

// ---------------------------------------------------------------------------
// What each operation does to the cursor and the words
// ---------------------------------------------------------------------------

pub open spec fn read_word_post(words: Seq<u64>, s0: BitStreamState, s1: BitStreamState, r: u64) -> bool {
    &&& r == (if s0.word_pos < words.len() {
        words[s0.word_pos as int]
    } else {
        0
    })
    &&& s1.word_pos == (if s0.word_pos < usize::MAX {
        s0.word_pos + 1
    } else {
        s0.word_pos as int
    })
    &&& s1.buffer == s0.buffer
    &&& s1.bits == s0.bits
}

pub open spec fn read_bits_post(words: Seq<u64>, s0: BitStreamState, s1: BitStreamState, n: u32, r: u64) -> bool {
    &&& s1.wf()
    &&& forall|j: int| 0 <= j < n ==> word_bit(r, j) == #[trigger] s0.pending(words, j)
    &&& n < 64 ==> r >> (n as u64) == 0
    &&& forall|j: int|
        0 <= j ==> #[trigger] s1.pending(words, j) == s0.pending(words, j + n)
    &&& s0.word_pos < usize::MAX ==> s1.read_offset() == s0.read_offset() + n
    &&& s1.word_pos >= s0.word_pos
}

pub open spec fn read_bit_post(words: Seq<u64>, s0: BitStreamState, s1: BitStreamState, r: u32) -> bool {
    &&& s1.wf()
    &&& r <= 1
    &&& (r == 1) == s0.pending(words, 0)
    &&& forall|j: int|
        0 <= j ==> #[trigger] s1.pending(words, j) == s0.pending(words, j + 1)
    &&& s0.word_pos < usize::MAX ==> s1.read_offset() == s0.read_offset() + 1
    &&& s1.word_pos >= s0.word_pos
}

/// A cursor at the start of the stream is well formed.
pub proof fn lemma_new_wf()
    ensures
        BitStreamState::spec_new().wf(),
{
    lemma_zero_shr(0);
}

/// What a read gives back of writes: once the partial word is flushed, a
/// cursor rewound to the start of the words reads back, bit for bit,
/// everything that was written.
pub proof fn lemma_rewound_reads_written(s: BitStreamState, w: Seq<u64>)
    requires
        s.wf(),
        s.bits == 0,
    ensures
        forall|j: int| 0 <= j < s.written(w).len() ==> #[trigger] BitStreamState::spec_new().pending(w, j) == s.written(w)[j],
{
}

/// A value of `n` bits written to a fresh cursor, flushed, and read back
/// from the start in `n` bits is the value's low `n` bits.
pub proof fn lemma_write_flush_read_bits(
    w0: Seq<u64>,
    w1: Seq<u64>,
    s1: BitStreamState,
    value: u64,
    n: u32,
    rw: u64,
    w2: Seq<u64>,
    s2: BitStreamState,
    pad: usize,
    s3: BitStreamState,
    r: u64,
)
    requires
        write_bits_post(w0, w1, BitStreamState::spec_new(), s1, value, n, rw),
        flush_post(w1, w2, s1, s2, pad),
        read_bits_post(w2, BitStreamState::spec_new(), s3, n, r),
    ensures
        forall|j: int| 0 <= j < n ==> #[trigger] word_bit(r, j) == word_bit(value, j),
{
    let s0 = BitStreamState::spec_new();
    assert(s0.written(w0) =~= Seq::<bool>::empty());
    lemma_rewound_reads_written(s2, w2);
    assert forall|j: int| 0 <= j < n implies #[trigger] word_bit(r, j) == word_bit(value, j) by {
        assert(s2.written(w2)[j] == s1.written(w1)[j]);
        assert(s1.written(w1)[j] == low_bits(value, n as nat)[j]);
        assert(s0.pending(w2, j) == s2.written(w2)[j]);
    }
}

/// The bits of successive writes, the `i`-th of the low `ns[i]` bits of
/// `vals[i]`, for the first `k` writes in order.
pub open spec fn writes_bits(vals: Seq<u64>, ns: Seq<u32>, k: int) -> Seq<bool>
    decreases k,
{
    if k <= 0 {
        Seq::empty()
    } else {
        writes_bits(vals, ns, k - 1) + low_bits(vals[k - 1], ns[k - 1] as nat)
    }
}

proof fn lemma_writes_prefix(vals: Seq<u64>, ns: Seq<u32>, m: int, k: int, p: int)
    requires
        0 <= m <= k,
        0 <= p < writes_bits(vals, ns, m).len(),
    ensures
        writes_bits(vals, ns, m).len() <= writes_bits(vals, ns, k).len(),
        writes_bits(vals, ns, k)[p] == writes_bits(vals, ns, m)[p],
    decreases k,
{
    if m < k {
        lemma_writes_prefix(vals, ns, m, k - 1, p);
    }
}

proof fn lemma_writes_grow(vals: Seq<u64>, ns: Seq<u32>, m: int, k: int)
    requires
        0 <= m <= k,
    ensures
        writes_bits(vals, ns, m).len() <= writes_bits(vals, ns, k).len(),
    decreases k,
{
    if m < k {
        lemma_writes_grow(vals, ns, m, k - 1);
    }
}

proof fn lemma_writes_written(vals: Seq<u64>, ns: Seq<u32>, ws: Seq<Seq<u64>>, ss: Seq<BitStreamState>, rws: Seq<u64>, i: int)
    requires
        ns.len() == vals.len(),
        ws.len() == vals.len() + 1,
        ss.len() == vals.len() + 1,
        rws.len() == vals.len(),
        ss[0] == BitStreamState::spec_new(),
        forall|t: int| 0 <= t < vals.len() ==> #[trigger] write_bits_post(ws[t], ws[t + 1], ss[t], ss[t + 1], vals[t], ns[t], rws[t]),
        0 <= i <= vals.len(),
    ensures
        ss[i].written(ws[i]) == writes_bits(vals, ns, i),
    decreases i,
{
    if i == 0 {
        assert(ss[0].written(ws[0]) =~= Seq::<bool>::empty());
    } else {
        lemma_writes_written(vals, ns, ws, ss, rws, i - 1);
        let t = i - 1;
        assert(write_bits_post(ws[t], ws[t + 1], ss[t], ss[t + 1], vals[t], ns[t], rws[t]));
    }
}

proof fn lemma_reads_shift(
    ns: Seq<u32>,
    vals: Seq<u64>,
    w: Seq<u64>,
    rs: Seq<BitStreamState>,
    outs: Seq<u64>,
    i: int,
)
    requires
        ns.len() == vals.len(),
        rs.len() == vals.len() + 1,
        outs.len() == vals.len(),
        rs[0] == BitStreamState::spec_new(),
        forall|t: int| 0 <= t < vals.len() ==> #[trigger] read_bits_post(w, rs[t], rs[t + 1], ns[t], outs[t]),
        0 <= i <= vals.len(),
    ensures
        forall|j: int| 0 <= j ==> #[trigger] rs[i].pending(w, j) == BitStreamState::spec_new().pending(
            w,
            writes_bits(vals, ns, i).len() + j,
        ),
        rs[i].wf(),
    decreases i,
{
    if i == 0 {
        lemma_zero_shr(0);
    } else {
        lemma_reads_shift(ns, vals, w, rs, outs, i - 1);
        let t = i - 1;
        assert(read_bits_post(w, rs[t], rs[t + 1], ns[t], outs[t]));
        assert forall|j: int| 0 <= j implies #[trigger] rs[i].pending(w, j) == BitStreamState::spec_new().pending(
            w,
            writes_bits(vals, ns, i).len() + j,
        ) by {
            assert(rs[i].pending(w, j) == rs[i - 1].pending(w, j + ns[i - 1]));
        }
    }
}

proof fn lemma_reads_offsets(
    ns: Seq<u32>,
    vals: Seq<u64>,
    w: Seq<u64>,
    rs: Seq<BitStreamState>,
    outs: Seq<u64>,
    i: int,
)
    requires
        ns.len() == vals.len(),
        rs.len() == vals.len() + 1,
        outs.len() == vals.len(),
        rs[0] == BitStreamState::spec_new(),
        forall|t: int| 0 <= t < vals.len() ==> #[trigger] read_bits_post(w, rs[t], rs[t + 1], ns[t], outs[t]),
        0 <= i <= vals.len(),
        reads_within(w, BitStreamState::spec_new(), writes_bits(vals, ns, vals.len() as int).len() as int),
    ensures
        rs[i].read_offset() == writes_bits(vals, ns, i).len(),
    decreases i,
{
    if i > 0 {
        lemma_reads_offsets(ns, vals, w, rs, outs, i - 1);
        lemma_reads_shift(ns, vals, w, rs, outs, i - 1);
        lemma_writes_grow(vals, ns, i, vals.len() as int);
        let total = writes_bits(vals, ns, vals.len() as int).len() as int;
        let before = writes_bits(vals, ns, i - 1).len() as int;
        assert(reads_within(w, rs[i - 1], total - before));
        lemma_reads_within(w, rs[i - 1], total - before, ns[i - 1] as int);
        let t = i - 1;
        assert(read_bits_post(w, rs[t], rs[t + 1], ns[t], outs[t]));
    }
}

/// What reads give back of successive writes: values written one after the
/// other to a fresh cursor, flushed, and read back from a rewound cursor in as
/// many bits each come back in order, each as its low bits; while the bits
/// lie within the words, the read cursor after each read stands at the
/// number of bits written up to that value.
pub proof fn lemma_writes_read_back(
    vals: Seq<u64>,
    ns: Seq<u32>,
    ws: Seq<Seq<u64>>,
    ss: Seq<BitStreamState>,
    rws: Seq<u64>,
    wf: Seq<u64>,
    sf: BitStreamState,
    pad: usize,
    rs: Seq<BitStreamState>,
    outs: Seq<u64>,
)
    requires
        ns.len() == vals.len(),
        ws.len() == vals.len() + 1,
        ss.len() == vals.len() + 1,
        rws.len() == vals.len(),
        rs.len() == vals.len() + 1,
        outs.len() == vals.len(),
        ss[0] == BitStreamState::spec_new(),
        forall|t: int| 0 <= t < vals.len() ==> #[trigger] write_bits_post(ws[t], ws[t + 1], ss[t], ss[t + 1], vals[t], ns[t], rws[t]),
        flush_post(ws[vals.len() as int], wf, ss[vals.len() as int], sf, pad),
        rs[0] == BitStreamState::spec_new(),
        forall|t: int| 0 <= t < vals.len() ==> #[trigger] read_bits_post(wf, rs[t], rs[t + 1], ns[t], outs[t]),
    ensures
        forall|i: int, j: int| 0 <= i < vals.len() && 0 <= j < ns[i] ==> #[trigger] word_bit(outs[i], j) == word_bit(vals[i], j),
        reads_within(wf, BitStreamState::spec_new(), writes_bits(vals, ns, vals.len() as int).len() as int) ==> forall|i: int|
            0 <= i <= vals.len() ==> #[trigger] rs[i].read_offset() == writes_bits(vals, ns, i).len(),
{
    let k = vals.len() as int;
    lemma_writes_written(vals, ns, ws, ss, rws, k);
    lemma_rewound_reads_written(sf, wf);
    assert forall|i: int, j: int| 0 <= i < vals.len() && 0 <= j < ns[i] implies #[trigger] word_bit(outs[i], j) == word_bit(vals[i], j) by {
        lemma_reads_shift(ns, vals, wf, rs, outs, i);
        assert(read_bits_post(wf, rs[i], rs[i + 1], ns[i], outs[i]));
        let l = writes_bits(vals, ns, i).len() as int;
        assert(writes_bits(vals, ns, i + 1) == writes_bits(vals, ns, i) + low_bits(vals[i], ns[i] as nat));
        lemma_writes_prefix(vals, ns, i + 1, k, l + j);
        assert(word_bit(outs[i], j) == rs[i].pending(wf, j));
        assert(rs[i].pending(wf, j) == BitStreamState::spec_new().pending(wf, l + j));
        assert(sf.written(wf)[l + j] == writes_bits(vals, ns, k)[l + j]);
    }
    if reads_within(wf, BitStreamState::spec_new(), writes_bits(vals, ns, k).len() as int) {
        assert forall|i: int| 0 <= i <= vals.len() implies #[trigger] rs[i].read_offset() == writes_bits(vals, ns, i).len() by {
            lemma_reads_offsets(ns, vals, wf, rs, outs, i);
        }
    }
}

/// Skipping `n` bits that lie within the words moves the read cursor `n`
/// bits on, where it reads the stream's bits from that offset, as seeking
/// there would.
pub proof fn lemma_skip_moves(words: Seq<u64>, s0: BitStreamState, s1: BitStreamState, n: usize)
    requires
        s0.wf(),
        skip_post(words, s0, s1, n),
        reads_within(words, s0, n as int),
    ensures
        s1.read_offset() == s0.read_offset() + n,
        s1.reads_from(words, s0.read_offset() + n),
{
    vstd::arithmetic::div_mod::lemma_small_mod((s0.read_offset() + n) as nat, offset_modulus() as nat);
}

/// Reading `n` more bits from cursor `s` stays within `words`, whose bit
/// count fits a stream position.
pub open spec fn reads_within(words: Seq<u64>, s: BitStreamState, n: int) -> bool {
    &&& 0 <= s.read_offset()
    &&& 0 <= n
    &&& s.read_offset() + n <= words.len() * 64
    &&& words.len() < usize::MAX
    &&& words.len() * 64 < offset_modulus()
}

/// A cursor that can still read within the words has a word index below the
/// largest, and can read fewer bits within them too.
pub proof fn lemma_reads_within(words: Seq<u64>, s: BitStreamState, n: int, m: int)
    requires
        s.wf(),
        reads_within(words, s, n),
        0 <= m <= n,
    ensures
        s.word_pos < usize::MAX,
        s.word_pos <= words.len(),
        reads_within(words, s, m),
{
}

pub open spec fn seek_read_post(words: Seq<u64>, s1: BitStreamState, offset: u64) -> bool {
    &&& s1.reads_from(words, offset as int)
    &&& s1.word_pos <= words.len() + 1
    &&& offset <= words.len() * 64 ==> s1.read_offset() == offset
    &&& offset % 64 == 0 ==> s1.bits == 0 && s1.word_pos == (if offset / 64 < words.len() {
        (offset / 64) as int
    } else {
        words.len() as int
    })
}

pub open spec fn write_word_post(w0: Seq<u64>, w1: Seq<u64>, s0: BitStreamState, s1: BitStreamState, word: u64, r: u64) -> bool {
    &&& r == w0[s0.word_pos as int]
    &&& w1 == w0.update(s0.word_pos as int, word)
    &&& s1.word_pos == s0.word_pos + 1
    &&& s1.buffer == s0.buffer
    &&& s1.bits == s0.bits
}

pub open spec fn write_bits_post(w0: Seq<u64>, w1: Seq<u64>, s0: BitStreamState, s1: BitStreamState, value: u64, n: u32, r: u64) -> bool {
    &&& s1.wf()
    &&& w1.len() == w0.len()
    &&& s1.written(w1) == s0.written(w0) + low_bits(value, n as nat)
    &&& s1.write_offset() == s0.write_offset() + n
    &&& s1.word_pos == s0.word_pos + (s0.bits + n) / 64
    &&& forall|i: int|
        0 <= i < w0.len() && i != s0.word_pos ==> #[trigger] w1[i]
            == w0[i]
    &&& s1.word_pos == s0.word_pos ==> w1 == w0
    &&& r == (if n < 64 {
        value >> (n as u64)
    } else {
        0
    })
}

pub open spec fn write_bit_post(w0: Seq<u64>, w1: Seq<u64>, s0: BitStreamState, s1: BitStreamState, bit: u32, r: u32) -> bool {
    &&& s1.wf()
    &&& w1.len() == w0.len()
    &&& s1.written(w1) == s0.written(w0).push(bit == 1)
    &&& s1.write_offset() == s0.write_offset() + 1
    &&& s1.word_pos == s0.word_pos + (s0.bits + 1) / 64
    &&& forall|i: int|
        0 <= i < w0.len() && i != s0.word_pos ==> #[trigger] w1[i]
            == w0[i]
    &&& s1.word_pos == s0.word_pos ==> w1 == w0
    &&& r == bit
}

pub open spec fn seek_write_post(words: Seq<u64>, s1: BitStreamState, offset: u64) -> bool {
    &&& s1.wf()
    &&& s1.word_pos <= words.len()
    &&& s1.write_offset() == (if offset / 64 <= words.len() {
        offset as int
    } else {
        words.len() * 64 + offset % 64
    })
    &&& s1.written(words) == stored_bits(words, s1.write_offset() as nat)
}

pub open spec fn skip_post(words: Seq<u64>, s0: BitStreamState, s1: BitStreamState, n: usize) -> bool {
    seek_read_post(words, s1, ((s0.read_offset() + n) % offset_modulus()) as u64)
}

pub open spec fn pad_post(w0: Seq<u64>, w1: Seq<u64>, s0: BitStreamState, s1: BitStreamState, n: usize) -> bool {
    &&& s1.wf()
    &&& w1.len() == w0.len()
    &&& s1.written(w1) == s0.written(w0) + zero_bits(n as nat)
    &&& s1.write_offset() == s0.write_offset() + n
    &&& s1.word_pos == s0.word_pos + (s0.bits + n) / 64
    &&& s0.bits + n >= 64 ==> s1.buffer == 0
    &&& forall|i: int|
        0 <= i < w0.len() && (i < s0.word_pos || i >= s1.word_pos)
            ==> #[trigger] w1[i] == w0[i]
}

pub open spec fn align_post(words: Seq<u64>, s0: BitStreamState, s1: BitStreamState, r: u32) -> bool {
    &&& r == s0.bits
    &&& s1.wf()
    &&& r == 0 ==> s1 == s0
    &&& r != 0 ==> seek_read_post(words, s1, ((s0.word_pos * 64) % offset_modulus()) as u64)
}

pub open spec fn flush_post(w0: Seq<u64>, w1: Seq<u64>, s0: BitStreamState, s1: BitStreamState, r: usize) -> bool {
    &&& s1.wf()
    &&& s1.bits == 0
    &&& s1.buffer == 0
    &&& r == (64 - s0.bits) % 64
    &&& w1.len() == w0.len()
    &&& s1.written(w1) == s0.written(w0) + zero_bits(r as nat)
    &&& s1.word_pos == s0.word_pos + (if s0.bits == 0 {
        0int
    } else {
        1
    })
    &&& s0.bits == 0 ==> w1 == w0
    &&& forall|i: int|
        0 <= i < w0.len() && i != s0.word_pos ==> #[trigger] w1[i]
            == w0[i]
}

// ---------------------------------------------------------------------------
// Word-level bit facts
// ---------------------------------------------------------------------------

proof fn lemma_or_shift_bit(buf: u64, v: u64, b: u64, j: u64)
    by (bit_vector)
    requires
        b < 64,
        j < 64,
        buf >> b == 0,
    ensures
        ((buf | (v << b)) >> j) & 1 == 1 <==> (if j < b {
            (buf >> j) & 1 == 1
        } else {
            (v >> ((j - b) as u64)) & 1 == 1
        }),
{
}

proof fn lemma_mask_bit(x: u64, m: u64, j: u64)
    by (bit_vector)
    requires
        m < 64,
        j < 64,
    ensures
        ((x & (((1u64 << m) - 1) as u64)) >> j) & 1 == 1 <==> (j < m && (x >> j) & 1 == 1),
        (x & (((1u64 << m) - 1) as u64)) >> m == 0,
{
}

proof fn lemma_shr_bit(x: u64, s: u64, j: u64)
    by (bit_vector)
    requires
        s < 64,
        j < 64,
    ensures
        ((x >> s) >> j) & 1 == 1 <==> (j + s < 64 && (x >> (j + s)) & 1 == 1),
{
}

proof fn lemma_shr_clears(x: u64, s: u64)
    by (bit_vector)
    requires
        0 < s <= 64,
    ensures
        (x >> s) >> ((64 - s) as u64) == 0,
{
}

proof fn lemma_shr_shr(x: u64, b: u64)
    by (bit_vector)
    requires
        b < 64,
    ensures
        (x >> 1u64) >> ((63 - b) as u64) == x >> ((64 - b) as u64),
{
}

proof fn lemma_shr_more(x: u64, b: u64, c: u64)
    by (bit_vector)
    requires
        b <= c < 64,
        x >> b == 0,
    ensures
        x >> c == 0,
{
}

proof fn lemma_shr_keeps_wf(x: u64, n: u64, b: u64)
    by (bit_vector)
    requires
        n <= b < 64,
        x >> b == 0,
    ensures
        (x >> n) >> ((b - n) as u64) == 0,
{
}

proof fn lemma_one_shl_pos(n: u64)
    by (bit_vector)
    requires
        n < 64,
    ensures
        (1u64 << n) >= 1,
{
}

proof fn lemma_zero_shr(s: u64)
    by (bit_vector)
    requires
        s < 64,
    ensures
        0u64 >> s == 0,
{
}

proof fn lemma_zero_bits(j: u64)
    by (bit_vector)
    requires
        j < 64,
    ensures
        (0u64 >> j) & 1 != 1,
{
}

proof fn lemma_high_bit_zero(x: u64, b: u64, j: u64)
    by (bit_vector)
    requires
        b <= j < 64,
        x >> b == 0,
    ensures
        (x >> j) & 1 != 1,
{
}

proof fn lemma_div_mod_64(q: int, r: int)
    requires
        0 <= r < 64,
    ensures
        (q * 64 + r) / 64 == q,
        (q * 64 + r) % 64 == r,
{
    vstd::arithmetic::div_mod::lemma_fundamental_div_mod_converse(q * 64 + r, 64, q, r);
}

// ---------------------------------------------------------------------------
// Reading
// ---------------------------------------------------------------------------

/// Read the word at the cursor's word index (zero past the end) and advance the index.
///
/// The index saturates at `usize::MAX`; reads there only ever see zero words.
fn read_word_raw(words: &[u64], st: &mut BitStreamState) -> (r: u64)
    ensures
        r == (if old(st).word_pos < words@.len() {
            words@[old(st).word_pos as int]
        } else {
            0
        }),
        final(st).word_pos == (if old(st).word_pos < usize::MAX {
            old(st).word_pos + 1
        } else {
            old(st).word_pos as int
        }),
        final(st).buffer == old(st).buffer,
        final(st).bits == old(st).bits,
{
    let pos = st.word_pos;
    let w = if pos < words.len() {
        words[pos]
    } else {
        0
    };
    st.word_pos = pos.saturating_add(1);
    w
}

/// Stream bit `p` of the word read at index `wp`, for `p` within that word.
proof fn lemma_stream_bit_of_word(words: Seq<u64>, wp: int, word: u64, i: int)
    requires
        0 <= wp,
        0 <= i < 64,
        word == (if wp < words.len() {
            words[wp]
        } else {
            0
        }),
    ensures
        stream_bit(words, wp * 64 + i) == word_bit(word, i),
{
    lemma_div_mod_64(wp, i);
    if wp >= words.len() {
        lemma_zero_bits(i as u64);
    }
}

/// Read one full word at the word index; the partial word is left as it is.
pub fn read_word(words: &[u64], st: &mut BitStreamState) -> (r: u64)
    ensures
        read_word_post(words@, *old(st), *final(st), r),
{
    read_word_raw(words, st)
}

/// Read `n` bits (`n <= 64`), least significant first.
pub fn read_bits(words: &[u64], st: &mut BitStreamState, n: u32) -> (r: u64)
    requires
        old(st).wf(),
        n <= 64,
    ensures
        read_bits_post(words@, *old(st), *final(st), n, r),
{
    let b = st.bits;
    let buffer = st.buffer;
    let ghost old_st = *st;
    let len = words.len();
    if b < n {
        let word = read_word_raw(words, st);
        let value = buffer | (word << b);
        let nb = b + 64 - n;
        if nb == 0 {
            st.buffer = 0;
        } else {
            st.buffer = word >> (n - b);
        }
        st.bits = nb;
        proof {
            if n < 64 {
                lemma_one_shl_pos(n as u64);
            }
        }
        let r = if n < 64 {
            value & ((1u64 << n) - 1)
        } else {
            value
        };
        proof {
            let wp = old_st.word_pos as int;
            assert forall|j: int| 0 <= j < n implies word_bit(r, j) == #[trigger] old_st.pending(
                words@,
                j,
            ) by {
                lemma_or_shift_bit(buffer, word, b as u64, j as u64);
                if n < 64 {
                    lemma_mask_bit(value, n as u64, j as u64);
                }
                if j >= b {
                    lemma_stream_bit_of_word(words@, wp, word, j - b);
                }
            }
            if n < 64 {
                lemma_mask_bit(value, n as u64, 0);
            }
            if nb == 0 {
                lemma_zero_shr(0);
            } else {
                lemma_shr_clears(word, (n - b) as u64);
            }
            assert forall|j: int| 0 <= j implies #[trigger] st.pending(words@, j)
                == old_st.pending(words@, j + n) by {
                if j < nb {
                    lemma_shr_bit(word, (n - b) as u64, j as u64);
                    lemma_stream_bit_of_word(words@, wp, word, j + n - b);
                } else {
                    if wp < usize::MAX {
                        assert((wp + 1) * 64 + j - nb == wp * 64 + j + n - b);
                    } else {
                        assert(words@.len() == len);
                        assert((wp * 64 + j + n - b) / 64 >= wp) by {
                            lemma_div_mod_64(wp, 0);
                            vstd::arithmetic::div_mod::lemma_div_is_ordered(
                                wp * 64,
                                wp * 64 + j + n - b,
                                64,
                            );
                        }
                        assert((wp * 64 + j - nb) / 64 >= wp - 1) by {
                            lemma_div_mod_64(wp - 1, 0);
                            vstd::arithmetic::div_mod::lemma_div_is_ordered(
                                (wp - 1) * 64,
                                wp * 64 + j - nb,
                                64,
                            );
                        }
                    }
                }
            }
        }
        r
    } else {
        st.bits = b - n;
        st.buffer = buffer >> n;
        proof {
            lemma_one_shl_pos(n as u64);
        }
        let r = buffer & ((1u64 << n) - 1);
        proof {
            lemma_mask_bit(buffer, n as u64, 0);
            assert forall|j: int| 0 <= j < n implies word_bit(r, j) == #[trigger] old_st.pending(
                words@,
                j,
            ) by {
                lemma_mask_bit(buffer, n as u64, j as u64);
            }
            lemma_shr_keeps_wf(buffer, n as u64, b as u64);
            assert forall|j: int| 0 <= j implies #[trigger] st.pending(words@, j)
                == old_st.pending(words@, j + n) by {
                if j < b - n {
                    lemma_shr_bit(buffer, n as u64, j as u64);
                }
            }
        }
        r
    }
}


/// Read a single bit.
pub fn read_bit(words: &[u64], st: &mut BitStreamState) -> (r: u32)
    requires
        old(st).wf(),
    ensures
        read_bit_post(words@, *old(st), *final(st), r),
{
    let v = read_bits(words, st, 1);
    proof {
        assert(word_bit(v, 0) == old(st).pending(words@, 0));
        assert(v == 0 || v == 1) by (bit_vector)
            requires
                v >> 1u64 == 0,
        ;
        assert((v >> 0u64) & 1 == v) by (bit_vector)
            requires
                v == 0 || v == 1,
        ;
    }
    v as u32
}

/// Position the read cursor at bit `offset`; word indices past the buffer are clamped to its end.
pub fn seek_read(words: &[u64], st: &mut BitStreamState, offset: u64)
    ensures
        seek_read_post(words@, *final(st), offset),
{
    let n = (offset % 64) as u32;
    let len = words.len();
    let q = offset / 64;
    st.word_pos = if q >= len as u64 {
        len
    } else {
        q as usize
    };
    let ghost wp = st.word_pos as int;
    if n != 0 {
        let word = read_word_raw(words, st);
        st.buffer = word >> n;
        st.bits = 64 - n;
        proof {
            lemma_shr_clears(word, n as u64);
            assert(offset as int == q * 64 + n) by {
                vstd::arithmetic::div_mod::lemma_fundamental_div_mod(offset as int, 64);
            }
            assert forall|j: int| 0 <= j implies #[trigger] st.pending(words@, j) == stream_bit(
                words@,
                offset + j,
            ) by {
                if q < len {
                    assert(wp == q);
                    if j < 64 - n {
                        lemma_shr_bit(word, n as u64, j as u64);
                        lemma_stream_bit_of_word(words@, wp, word, j + n);
                    } else {
                        assert((wp + 1) * 64 + j - (64 - n) == offset + j);
                    }
                } else {
                    assert(wp == len);
                    assert((offset + j) / 64 >= q) by {
                        lemma_div_mod_64(q as int, 0);
                        vstd::arithmetic::div_mod::lemma_div_is_ordered(q * 64, offset + j, 64);
                    }
                    if j < 64 - n {
                        lemma_shr_bit(word, n as u64, j as u64);
                        lemma_zero_shr(n as u64);
                        lemma_zero_bits(j as u64);
                    } else {
                        assert(((len + 1) * 64 + j - (64 - n)) / 64 >= len) by {
                            lemma_div_mod_64(len as int, 0);
                            vstd::arithmetic::div_mod::lemma_div_is_ordered(
                                len * 64,
                                (len + 1) * 64 + j - (64 - n),
                                64,
                            );
                        }
                    }
                }
            }
        }
    } else {
        st.buffer = 0;
        st.bits = 0;
        proof {
            lemma_zero_shr(0);
            assert(offset as int == q * 64) by {
                vstd::arithmetic::div_mod::lemma_fundamental_div_mod(offset as int, 64);
            }
            assert forall|j: int| 0 <= j implies #[trigger] st.pending(words@, j) == stream_bit(
                words@,
                offset + j,
            ) by {
                if q >= len {
                    assert((offset + j) / 64 >= q) by {
                        lemma_div_mod_64(q as int, 0);
                        vstd::arithmetic::div_mod::lemma_div_is_ordered(q * 64, offset + j, 64);
                    }
                    assert((len * 64 + j) / 64 >= len) by {
                        lemma_div_mod_64(len as int, 0);
                        vstd::arithmetic::div_mod::lemma_div_is_ordered(len * 64, len * 64 + j, 64);
                    }
                }
            }
        }
    }
}

// ---------------------------------------------------------------------------
// Writing
// ---------------------------------------------------------------------------

/// Store a word at the word index and advance it.
fn write_word_raw(words: &mut [u64], st: &mut BitStreamState, value: u64)
    requires
        old(st).word_pos < old(words)@.len(),
    ensures
        final(words)@ == old(words)@.update(old(st).word_pos as int, value),
        final(st).word_pos == old(st).word_pos + 1,
        final(st).buffer == old(st).buffer,
        final(st).bits == old(st).bits,
{
    let pos = st.word_pos;
    words[pos] = value;
    st.word_pos = pos + 1;
}

/// Write one full word at the word index; return the word that was there.
pub fn write_word(words: &mut [u64], st: &mut BitStreamState, word: u64) -> (r: u64)
    requires
        old(st).word_pos < old(words)@.len(),
    ensures
        write_word_post(old(words)@, final(words)@, *old(st), *final(st), word, r),
{
    let prev = words[st.word_pos];
    write_word_raw(words, st, word);
    prev
}

/// The stored words below `wp` are the same in both buffers.
pub open spec fn same_below(a: Seq<u64>, b: Seq<u64>, wp: int) -> bool {
    forall|i: int| 0 <= i < wp && i < a.len() ==> #[trigger] a[i] == b[i]
}

/// Stream bits below `wp * 64` agree when the words below `wp` do.
proof fn lemma_stream_bit_same_below(a: Seq<u64>, b: Seq<u64>, wp: int, p: int)
    requires
        a.len() == b.len(),
        same_below(a, b, wp),
        0 <= p < wp * 64,
    ensures
        stream_bit(a, p) == stream_bit(b, p),
{
    assert(p / 64 < wp) by {
        vstd::arithmetic::div_mod::lemma_div_is_ordered(p, wp * 64 - 1, 64);
        lemma_div_mod_64(wp - 1, 63);
    }
}

/// Write the low `n` bits of `value` (`n <= 64`); return the bits of `value` above `n`.
pub fn write_bits(words: &mut [u64], st: &mut BitStreamState, value: u64, n: u32) -> (r: u64)
    requires
        old(st).wf(),
        n <= 64,
        old(st).bits + n >= 64 ==> old(st).word_pos < old(words)@.len(),
    ensures
        write_bits_post(old(words)@, final(words)@, *old(st), *final(st), value, n, r),
{
    let ghost old_st = *st;
    let ghost old_words = words@;
    let b = st.bits;
    let total = b + n;
    if total < 64 {
        proof {
            lemma_one_shl_pos(total as u64);
        }
        let merged = st.buffer | (value << b);
        st.buffer = merged & ((1u64 << total) - 1);
        st.bits = total;
        proof {
            lemma_mask_bit(merged, total as u64, 0);
            let wp = old_st.word_pos as int;
            let lhs = st.written(words@);
            let rhs = old_st.written(old_words) + low_bits(value, n as nat);
            assert forall|p: int| 0 <= p < lhs.len() implies lhs[p] == rhs[p] by {
                if p >= wp * 64 {
                    let j = p - wp * 64;
                    lemma_mask_bit(merged, total as u64, j as u64);
                    lemma_or_shift_bit(old_st.buffer, value, b as u64, j as u64);
                }
            }
            assert(lhs =~= rhs);
        }
    } else {
        let word = st.buffer | (value << b);
        write_word_raw(words, st, word);
        let rest = total - 64;
        proof {
            lemma_one_shl_pos(rest as u64);
        }
        let hi = (value >> 1) >> (63 - b);
        st.buffer = hi & ((1u64 << rest) - 1);
        st.bits = rest;
        proof {
            lemma_mask_bit(hi, rest as u64, 0);
            lemma_shr_shr(value, b as u64);
            let wp = old_st.word_pos as int;
            assert(words@[wp] == word);
            assert(same_below(words@, old_words, wp));
            let lhs = st.written(words@);
            let rhs = old_st.written(old_words) + low_bits(value, n as nat);
            assert forall|p: int| 0 <= p < lhs.len() implies lhs[p] == rhs[p] by {
                if p < wp * 64 {
                    lemma_stream_bit_same_below(words@, old_words, wp, p);
                } else if p < (wp + 1) * 64 {
                    let j = p - wp * 64;
                    lemma_div_mod_64(wp, j);
                    lemma_or_shift_bit(old_st.buffer, value, b as u64, j as u64);
                } else {
                    let j = p - (wp + 1) * 64;
                    lemma_mask_bit(hi, rest as u64, j as u64);
                    lemma_shr_bit(value, (64 - b) as u64, j as u64);
                }
            }
            assert(lhs =~= rhs);
        }
    }
    if n < 64 {
        value >> n
    } else {
        0
    }
}

/// Write a single bit (0 or 1); return it.
pub fn write_bit(words: &mut [u64], st: &mut BitStreamState, bit: u32) -> (r: u32)
    requires
        old(st).wf(),
        bit <= 1,
        old(st).bits == 63 ==> old(st).word_pos < old(words)@.len(),
    ensures
        write_bit_post(old(words)@, final(words)@, *old(st), *final(st), bit, r),
{
    let v = bit as u64;
    write_bits(words, st, v, 1);
    proof {
        assert(((v >> 0u64) & 1 == 1) == (v == 1)) by (bit_vector)
            requires
                v <= 1,
        ;
        assert(low_bits(v, 1) =~= seq![bit == 1]);
        let w = old(st).written(old(words)@);
        assert(w + seq![bit == 1] =~= w.push(bit == 1));
    }
    bit
}


/// Position the write cursor at bit `offset`, keeping the stored bits below it.
///
/// Word indices past the buffer are clamped to its end; the bits of the partial
/// word then read as zero.
pub fn seek_write(words: &[u64], st: &mut BitStreamState, offset: u64)
    ensures
        seek_write_post(words@, *final(st), offset),
{
    let n = (offset % 64) as u32;
    let len = words.len();
    let q = offset / 64;
    let wp = if q >= len as u64 {
        len
    } else {
        q as usize
    };
    st.word_pos = wp;
    proof {
        vstd::arithmetic::div_mod::lemma_fundamental_div_mod(offset as int, 64);
    }
    if n != 0 {
        proof {
            lemma_one_shl_pos(n as u64);
        }
        let buf = if wp < len {
            words[wp] & ((1u64 << n) - 1)
        } else {
            0
        };
        st.buffer = buf;
        st.bits = n;
        proof {
            if wp < len {
                lemma_mask_bit(words@[wp as int], n as u64, 0);
            } else {
                lemma_zero_shr(n as u64);
            }
            let lhs = st.written(words@);
            let rhs = stored_bits(words@, st.write_offset() as nat);
            assert forall|p: int| 0 <= p < lhs.len() implies lhs[p] == rhs[p] by {
                if p >= wp * 64 {
                    let j = p - wp * 64;
                    lemma_div_mod_64(wp as int, j);
                    if wp < len {
                        lemma_mask_bit(words@[wp as int], n as u64, j as u64);
                    } else {
                        lemma_zero_bits(j as u64);
                    }
                }
            }
            assert(lhs =~= rhs);
        }
    } else {
        st.buffer = 0;
        st.bits = 0;
        proof {
            lemma_zero_shr(0);
            let lhs = st.written(words@);
            let rhs = stored_bits(words@, st.write_offset() as nat);
            assert(lhs =~= rhs);
        }
    }
}

/// Move the cursor back to the start of the stream.
pub fn rewind(st: &mut BitStreamState)
    ensures
        *final(st) == BitStreamState::spec_new(),
{
    *st = BitStreamState::new();
}

/// The write cursor's bit offset, modulo `2^64`.
pub fn write_pos(st: &BitStreamState) -> (r: u64)
    ensures
        r as int == st.write_offset() % offset_modulus(),
{
    let r = (st.word_pos as u64).wrapping_mul(64).wrapping_add(st.bits as u64);
    proof {
        let wp = st.word_pos as int;
        let m = offset_modulus();
        assert((wp * 64) % m + st.bits < 2 * m);
        vstd::arithmetic::div_mod::lemma_add_mod_noop(wp * 64, st.bits as int, m);
        vstd::arithmetic::div_mod::lemma_mod_twice(wp * 64 + st.bits, m);
        vstd::arithmetic::div_mod::lemma_small_mod(st.bits as nat, m as nat);
    }
    r
}

/// The read cursor's bit offset, modulo `2^64`.
pub fn read_pos(st: &BitStreamState) -> (r: u64)
    ensures
        r as int == st.read_offset() % offset_modulus(),
{
    let r = (st.word_pos as u64).wrapping_mul(64).wrapping_sub(st.bits as u64);
    proof {
        let wp = st.word_pos as int;
        let m = offset_modulus();
        vstd::arithmetic::div_mod::lemma_sub_mod_noop(wp * 64, st.bits as int, m);
        vstd::arithmetic::div_mod::lemma_small_mod(st.bits as nat, m as nat);
    }
    r
}

/// Move the read cursor `n` bits forward.
pub fn skip(words: &[u64], st: &mut BitStreamState, n: usize)
    ensures
        skip_post(words@, *old(st), *final(st), n),
{
    let pos = read_pos(st).wrapping_add(n as u64);
    proof {
        let m = offset_modulus();
        vstd::arithmetic::div_mod::lemma_add_mod_noop(old(st).read_offset(), n as int, m);
        vstd::arithmetic::div_mod::lemma_small_mod(n as nat, m as nat);
    }
    seek_read(words, st, pos);
}

/// Append `n` zero bits.
pub fn pad(words: &mut [u64], st: &mut BitStreamState, n: usize)
    requires
        old(st).wf(),
        old(st).word_pos + (old(st).bits + n) / 64 <= old(words)@.len(),
        old(st).bits + n <= u64::MAX,
    ensures
        pad_post(old(words)@, final(words)@, *old(st), *final(st), n),
{
    let ghost old_st = *st;
    let ghost old_words = words@;
    let ghost wp0 = old_st.word_pos as int;
    let ghost b0 = old_st.bits as int;
    let ghost buf0 = old_st.buffer;
    let len = words.len();
    let mut bits: u64 = st.bits as u64 + n as u64;
    let ghost mut k: int = 0;
    while bits >= 64
        invariant
            st.word_pos == wp0 + k,
            0 <= wp0,
            0 <= b0 < 64,
            0 <= k,
            bits == b0 + n - 64 * k,
            st.bits == old_st.bits,
            wp0 + (b0 + n) / 64 <= len,
            words@.len() == len,
            len == old_words.len(),
            k == 0 ==> st.buffer == buf0,
            k > 0 ==> st.buffer == 0,
            k > 0 ==> words@[wp0] == buf0,
            forall|i: int| wp0 < i < wp0 + k ==> #[trigger] words@[i] == 0,
            forall|i: int|
                0 <= i < len && (i < wp0 || i >= wp0 + k) ==> #[trigger] words@[i]
                    == old_words[i],
        decreases bits,
    {
        proof {
            assert(wp0 + k < len) by {
                vstd::arithmetic::div_mod::lemma_div_is_ordered(64 * (k + 1), b0 + n, 64);
                vstd::arithmetic::div_mod::lemma_div_multiples_vanish(k + 1, 64);
            }
        }
        let buffer = st.buffer;
        let ghost before = words@;
        write_word_raw(words, st, buffer);
        st.buffer = 0;
        bits = bits - 64;
        proof {
            assert(words@ == before.update(wp0 + k, buffer));
            assert(words@.len() == before.len());
            assert(words@[wp0 + k] == buffer);
            if k > 0 {
                assert(before.update(wp0 + k, buffer)[wp0] == before[wp0]);
            }
            k = k + 1;
            assert forall|i: int| wp0 < i < wp0 + k implies #[trigger] words@[i] == 0 by {
                if i < wp0 + k - 1 {
                    assert(before.update(wp0 + k - 1, buffer)[i] == before[i]);
                }
            }
            assert forall|i: int|
                0 <= i < len && (i < wp0 || i >= wp0 + k) implies #[trigger] words@[i]
                    == old_words[i] by {
                assert(before.update(wp0 + k - 1, buffer)[i] == before[i]);
            }
        }
    }
    st.bits = bits as u32;
    proof {
        assert((b0 + n) / 64 == k) by {
            vstd::arithmetic::div_mod::lemma_fundamental_div_mod_converse(
                b0 + n,
                64,
                k,
                bits as int,
            );
        }
        if k == 0 {
            lemma_shr_more(buf0, b0 as u64, bits);
        } else {
            lemma_zero_shr(bits);
        }
        let lhs = st.written(words@);
        let rhs = old_st.written(old_words) + zero_bits(n as nat);
        assert forall|p: int| 0 <= p < lhs.len() implies lhs[p] == rhs[p] by {
            if p < wp0 * 64 {
                lemma_stream_bit_same_below(words@, old_words, wp0, p);
            } else {
                let i = (p - wp0 * 64) / 64;
                let j = (p - wp0 * 64) % 64;
                vstd::arithmetic::div_mod::lemma_fundamental_div_mod(p - wp0 * 64, 64);
                assert(p == (wp0 + i) * 64 + j);
                lemma_div_mod_64(wp0 + i, j);
                if i < k {
                    if i == 0 {
                        if j >= b0 {
                            lemma_high_bit_zero(buf0, b0 as u64, j as u64);
                        }
                    } else {
                        lemma_zero_bits(j as u64);
                    }
                } else {
                    assert(i == k);
                    if k == 0 {
                        if j >= b0 {
                            lemma_high_bit_zero(buf0, b0 as u64, j as u64);
                        }
                    } else {
                        lemma_zero_bits(j as u64);
                    }
                }
            }
        }
        assert(lhs =~= rhs);
    }
}

/// Discard the unread bits of the partial word, so that reading resumes at the next word.
pub fn align(words: &[u64], st: &mut BitStreamState) -> (r: u32)
    requires
        old(st).wf(),
    ensures
        align_post(words@, *old(st), *final(st), r),
{
    let bits = st.bits;
    if bits != 0 {
        skip(words, st, bits as usize);
    }
    bits
}

/// Pad the partial word with zero bits and store it; return the number of bits added.
pub fn flush(words: &mut [u64], st: &mut BitStreamState) -> (r: usize)
    requires
        old(st).wf(),
        old(st).bits != 0 ==> old(st).word_pos < old(words)@.len(),
    ensures
        flush_post(old(words)@, final(words)@, *old(st), *final(st), r),
{
    let padding = (64 - st.bits) % 64;
    if padding != 0 {
        pad(words, st, padding as usize);
    } else {
        proof {
            let buf = st.buffer;
            assert(st.bits == 0);
            assert(buf >> 0u64 == 0);
            assert(buf == 0) by (bit_vector)
                requires
                    buf >> 0u64 == 0,
            ;
            assert(old(st).written(old(words)@) + zero_bits(0) =~= old(st).written(old(words)@));
        }
    }
    padding as usize
}

} // verus!
