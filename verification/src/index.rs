//! Where the lines of a trace start.

use vstd::prelude::*;

use crate::scan::{chunk_lines, find_line_end, lemma_line_end_bounds, lemma_line_start_nonneg, law_a_line_ends_at_its_line_feed, lemma_filter_ends, lemma_filter_step, line_end, line_start, nth_chunk, tiles, Chunk};

verus! {

/// The places of every `stride`th line start, from which the others are found.
pub struct LineIndex {
    /// How many lines there are.
    total: u32,
    /// How many lines lie between one sample and the next.
    stride: u32,
    /// Where lines 0, `stride`, twice `stride` and so on start.
    samples: Vec<usize>,
}

/// `data` has `n` lines.
pub open spec fn has_lines(data: Seq<u8>, n: int) -> bool {
    &&& 0 <= n
    &&& line_start(data, 0, n as nat) >= data.len()
    &&& n > 0 ==> line_start(data, 0, (n - 1) as nat) < data.len()
}

proof fn lemma_line_exists(data: Seq<u8>, k: nat, n: nat)
    requires
        k <= n,
        line_start(data, 0, n) < data.len(),
    ensures
        0 <= line_start(data, 0, k) < data.len(),
    decreases n - k,
{
    lemma_line_start_nonneg(data, 0, k);
    if k < n {
        lemma_line_exists(data, k + 1, n);
        lemma_line_end_bounds(data, line_start(data, 0, k));
    }
}

impl LineIndex {
    /// How many lines the index counts.
    pub closed spec fn lines(&self) -> u32 {
        self.total
    }

    /// The index is that of `data`.
    pub closed spec fn well_formed(&self, data: Seq<u8>) -> bool {
        &&& self.stride > 0
        &&& has_lines(data, self.total as int)
        &&& self.total <= self.samples@.len() * self.stride
        &&& forall|i: int|
            0 <= i < self.samples@.len() && i * self.stride < self.total
                ==> #[trigger] self.samples@[i] == line_start(
                data,
                0,
                (i * self.stride) as nat,
            )
    }

    /// How many lines there are.
    pub fn total_lines(&self) -> (n: u32)
        ensures
            n == self.lines(),
    {
        self.total
    }

    /// Indexes `data`, keeping the place of every `stride`th line. Nothing comes back where there
    /// are more lines than a `u32` can number.
    pub fn build(data: &[u8], stride: u32) -> (r: Option<LineIndex>)
        requires
            stride > 0,
        ensures
            match r {
                Some(index) => index.well_formed(data@) && has_lines(data@, index.lines() as int),
                None => forall|n: int| has_lines(data@, n) ==> n > u32::MAX,
            },
    {
        let mut samples: Vec<usize> = Vec::new();
        let mut total: u32 = 0;
        let mut since: u32 = 0;
        let mut pos: usize = 0;
        assert(0 * stride == 0) by (nonlinear_arith);
        while pos < data.len()
            invariant
                stride > 0,
                since < stride,
                pos < data@.len() ==> line_start(data@, 0, total as nat) == pos,
                pos >= data@.len() ==> line_start(data@, 0, total as nat) >= data@.len(),
                total > 0 ==> line_start(data@, 0, (total - 1) as nat) < data@.len(),
                since > 0 ==> total == (samples@.len() - 1) * stride + since,
                since == 0 ==> total == samples@.len() * stride,
                forall|i: int|
                    0 <= i < samples@.len() ==> #[trigger] samples@[i] == line_start(
                        data@,
                        0,
                        (i * stride) as nat,
                    ),
            decreases data@.len() - pos,
        {
            if total == u32::MAX {
                assert forall|n: int| has_lines(data@, n) implies n > u32::MAX by {
                    if n <= total {
                        lemma_line_exists(data@, n as nat, total as nat);
                    }
                }
                return None;
            }
            let ghost len = samples@.len();
            if since == 0 {
                samples.push(pos);
            }
            assert((len + 1) * stride == len * stride + stride) by (nonlinear_arith);
            assert(since > 0 ==> (len - 1 + 1) * stride == (len - 1) * stride + stride)
                by (nonlinear_arith);
            let end: usize = find_line_end(data, pos);
            pos = if end < data.len() {
                end + 1
            } else {
                data.len()
            };
            since = if since + 1 == stride {
                0
            } else {
                since + 1
            };
            total = total + 1;
        }
        assert((samples@.len() - 1) * stride + stride == samples@.len() * stride)
            by (nonlinear_arith);
        Some(LineIndex { total, stride, samples })
    }

    /// Where line number `seq` starts.
    pub fn line_byte_offset(&self, data: &[u8], seq: u32) -> (r: Option<usize>)
        requires
            self.well_formed(data@),
        ensures
            match r {
                Some(pos) => seq < self.lines() && pos == line_start(data@, 0, seq as nat) && pos
                    < data@.len(),
                None => seq >= self.lines(),
            },
    {
        if seq >= self.total {
            return None;
        }
        let slot: u32 = seq / self.stride;
        let ahead: u32 = seq % self.stride;
        let ghost base = slot * self.stride;
        proof {
            let (q, d, n) = (slot as int, self.stride as int, self.samples@.len() as int);
            assert(q * d + ahead == seq) by (nonlinear_arith)
                requires
                    q == seq as int / d,
                    ahead as int == seq as int % d,
                    d > 0,
            ;
            assert(q < n) by (nonlinear_arith)
                requires
                    q * d + ahead == seq,
                    seq < n * d,
                    d > 0,
                    ahead >= 0,
            ;
            lemma_line_exists(data@, base as nat, (self.total - 1) as nat);
        }
        let mut pos: usize = self.samples[slot as usize];
        let mut i: u32 = 0;
        while i < ahead
            invariant
                self.well_formed(data@),
                seq < self.total,
                i <= ahead,
                base + ahead == seq,
                base >= 0,
                pos == line_start(data@, 0, (base + i) as nat),
                pos < data@.len(),
            decreases ahead - i,
        {
            proof {
                lemma_line_exists(data@, (base + i + 1) as nat, (self.total - 1) as nat);
                assert((base + i + 1 - 1) as nat == (base + i) as nat);
                assert(line_start(data@, 0, (base + i + 1) as nat) == line_end(data@, pos as int)
                    + 1);
            }
            let end: usize = find_line_end(data, pos);
            assert(end + 1 < data.len());
            pos = end + 1;
            i = i + 1;
        }
        Some(pos)
    }
}

/// The first of two numbers that is not greater than the other.
fn least(a: u64, b: u64) -> (r: u64)
    ensures
        r == if a < b {
            a as int
        } else {
            b as int
        },
{
    if a < b {
        a
    } else {
        b
    }
}

/// How many chunks the work is cut into for `num_cpus` processors.
pub open spec fn chunk_count(num_cpus: int) -> int {
    if num_cpus < 16 {
        num_cpus
    } else {
        16
    }
}

/// Cuts the lines of `data` into one chunk for each processor, sixteen at most.
pub fn plan_chunks(index: &LineIndex, data: &[u8], num_cpus: usize) -> (chunks: Vec<Chunk>)
    requires
        index.well_formed(data@),
        index.lines() > 10000,
        num_cpus > 1,
    ensures
        chunks@ == Seq::new(
            chunk_count(num_cpus as int) as nat,
            |i: int|
                nth_chunk(
                    data@,
                    index.lines() as int,
                    chunk_lines(index.lines() as int, chunk_count(num_cpus as int)),
                    i,
                ),
        ),
        tiles(chunks@, data@, index.lines() as int),
{
    let total: u64 = index.total as u64;
    let n: u64 = least(num_cpus as u64, 16);
    let size: u64 = (total + n - 1) / n;
    proof {
        assert(size == chunk_lines(total as int, n as int));
        assert(n * size >= total && (n - 1) * size < total && 0 < size <= total) by (nonlinear_arith)
            requires
                size == (total + n - 1) / (n as int),
                2 <= n <= 16,
                total > 10000,
        ;
    }
    let mut chunks: Vec<Chunk> = Vec::new();
    let mut i: u64 = 0;
    while i < n
        invariant
            index.well_formed(data@),
            total == index.total,
            2 <= n <= 16,
            0 < size <= total,
            n * size >= total,
            (n - 1) * size < total,
            i <= n,
            chunks@.len() == i,
            forall|k: int|
                0 <= k < i ==> {
                    &&& #[trigger] chunks@[k] == nth_chunk(data@, total as int, size as int, k)
                    &&& k * size < total
                    &&& chunks@[k].0 == k * size
                    &&& chunks@[k].1 == if (k + 1) * size < total {
                        (k + 1) * size
                    } else {
                        total as int
                    }
                    &&& chunks@[k].2 == line_start(data@, 0, (k * size) as nat)
                },
        decreases n - i,
    {
        proof {
            assert(0 <= i * size <= (n - 1) * size) by (nonlinear_arith)
                requires
                    0 <= i <= n - 1,
                    0 < size,
            ;
            assert((i + 1) * size == i * size + size) by (nonlinear_arith);
        }
        let start: u64 = i * size;
        let end: u64 = least(start + size, total);
        let offset: usize = match index.line_byte_offset(data, start as u32) {
            Some(pos) => pos,
            None => 0,
        };
        assert(start < index.lines() && offset == line_start(data@, 0, start as nat));
        assert(start == i * size);
        chunks.push((start as u32, end as u32, offset));
        assert(chunks@[i as int] == nth_chunk(data@, total as int, size as int, i as int));
        i = i + 1;
    }
    proof {
        assert forall|k: int| 0 <= k < chunks@.len() implies {
            &&& (#[trigger] chunks@[k]).0 < chunks@[k].1
            &&& chunks@[k].2 == line_start(data@, 0, chunks@[k].0 as nat)
        } by {
            assert((k + 1) * size == k * size + size) by (nonlinear_arith);
        }
        assert forall|k: int| 0 <= k < chunks@.len() - 1 implies (#[trigger] chunks@[k]).1
            == chunks@[k + 1].0 by {
            assert(chunks@[k + 1].0 == (k + 1) * size);
        }
        assert(chunks@[n - 1].1 == total);
        assert(0 * size == 0) by (nonlinear_arith);
        assert(chunks@[0].0 == 0);
    }
    chunks
}

/// How many line feeds there are.
pub open spec fn line_feeds(data: Seq<u8>) -> nat {
    data.filter(|b: u8| b == 10).len()
}

proof fn lemma_no_line_feed(data: Seq<u8>, a: int, b: int)
    requires
        0 <= a <= b <= data.len(),
        forall|j: int| a <= j < b ==> data[j] != 10,
    ensures
        line_feeds(data.take(b)) == line_feeds(data.take(a)),
    decreases b - a,
{
    if a < b {
        lemma_no_line_feed(data, a, b - 1);
        lemma_filter_step(data, |b: u8| b == 10, b - 1);
    }
}

proof fn lemma_line_feeds_before(data: Seq<u8>, k: nat)
    requires
        line_start(data, 0, k) <= data.len(),
    ensures
        0 <= line_start(data, 0, k),
        line_feeds(data.take(line_start(data, 0, k))) == k,
    decreases k,
{
    lemma_line_start_nonneg(data, 0, k);
    if k == 0 {
        lemma_filter_ends(data, |b: u8| b == 10);
    } else {
        let start = line_start(data, 0, (k - 1) as nat);
        lemma_line_start_nonneg(data, 0, (k - 1) as nat);
        lemma_line_end_bounds(data, start);
        lemma_line_feeds_before(data, (k - 1) as nat);
        law_a_line_ends_at_its_line_feed(data, start);
        let end = line_end(data, start);
        lemma_no_line_feed(data, start, end);
        lemma_filter_step(data, |b: u8| b == 10, end);
    }
}

/// Data has as many lines as line feeds, and one more where it does not end with one.
pub proof fn law_line_feeds_count_the_lines(data: Seq<u8>, n: int)
    requires
        has_lines(data, n),
    ensures
        n == line_feeds(data) + if data.len() > 0 && data.last() != 10 {
            1int
        } else {
            0
        },
{
    lemma_filter_ends(data, |b: u8| b == 10);
    if n == 0 {
        assert(data =~= data.take(0));
    } else {
        let start = line_start(data, 0, (n - 1) as nat);
        lemma_line_feeds_before(data, (n - 1) as nat);
        law_a_line_ends_at_its_line_feed(data, start);
        let end = line_end(data, start);
        lemma_no_line_feed(data, start, end);
        if end < data.len() {
            assert(end == data.len() - 1);
            lemma_filter_step(data, |b: u8| b == 10, end);
        } else {
            assert(data[data.len() - 1] != 10);
        }
    }
}

proof fn lemma_line_starts_grow(data: Seq<u8>, k: nat)
    ensures
        line_start(data, 0, k) >= k || line_start(data, 0, k) >= data.len(),
    decreases k,
{
    if k > 0 {
        lemma_line_starts_grow(data, (k - 1) as nat);
        lemma_line_start_nonneg(data, 0, (k - 1) as nat);
        lemma_line_end_bounds(data, line_start(data, 0, (k - 1) as nat));
    }
}

proof fn lemma_last_line(data: Seq<u8>, k: nat) -> (n: int)
    requires
        line_start(data, 0, k) >= data.len(),
    ensures
        has_lines(data, n),
    decreases k,
{
    if k > 0 && line_start(data, 0, (k - 1) as nat) >= data.len() {
        lemma_last_line(data, (k - 1) as nat)
    } else {
        k as int
    }
}

/// All data has some number of lines.
pub proof fn law_data_has_lines(data: Seq<u8>)
    ensures
        exists|n: int| has_lines(data, n),
{
    lemma_line_starts_grow(data, data.len());
    let n = lemma_last_line(data, data.len());
}

/// The work is cut into as many chunks as there are processors, sixteen at most.
pub proof fn law_one_chunk_for_each_processor(num_cpus: int)
    ensures
        chunk_count(num_cpus) <= num_cpus,
        chunk_count(num_cpus) <= 16,
        chunk_count(num_cpus) == num_cpus || chunk_count(num_cpus) == 16,
{
}

} // verus!
