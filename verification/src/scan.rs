//! Walking the lines of a trace and collecting those that a search finds.

use std::collections::{HashMap, HashSet};

use rayon::iter::{IntoParallelRefIterator, ParallelIterator};
use vstd::prelude::*;
use vstd::slice::slice_subrange;
use vstd::utf8::encode_utf8;

use crate::matching::{found_in, matches_line, ModeView, SearchMode};

verus! {

/// `memchr::memchr`: the first place of `needle` in `haystack`, or nothing where it does not
/// occur.
pub assume_specification[ memchr::memchr ](needle: u8, haystack: &[u8]) -> (r: Option<usize>)
    ensures
        match r {
            Some(i) => {
                &&& i < haystack@.len()
                &&& haystack@[i as int] == needle
                &&& forall|j: int| 0 <= j < i ==> haystack@[j] != needle
            },
            None => forall|j: int| 0 <= j < haystack@.len() ==> haystack@[j] != needle,
        },
;

/// Where the line that holds the byte at `pos` ends: at the next line feed, or at the end of the
/// data.
pub open spec fn line_end(data: Seq<u8>, pos: int) -> int
    decreases data.len() - pos,
{
    if pos >= data.len() {
        data.len() as int
    } else if data[pos] == 10 {
        pos
    } else {
        line_end(data, pos + 1)
    }
}

/// The rest, from `pos` on, of the line that holds the byte at `pos`.
pub open spec fn line_from(data: Seq<u8>, pos: int) -> Seq<u8> {
    data.subrange(pos, line_end(data, pos))
}

/// Where the `k`th line after the one at `offset` starts; at or past the end of the data where
/// there is no such line.
pub open spec fn line_start(data: Seq<u8>, offset: int, k: nat) -> int
    decreases k,
{
    if k == 0 {
        offset
    } else {
        line_end(data, line_start(data, offset, (k - 1) as nat)) + 1
    }
}

proof fn lemma_line_end(data: Seq<u8>, pos: int, end: int)
    requires
        0 <= pos <= end <= data.len(),
        forall|j: int| pos <= j < end ==> data[j] != 10,
        end < data.len() ==> data[end] == 10,
    ensures
        line_end(data, pos) == end,
    decreases end - pos,
{
    if pos < end {
        lemma_line_end(data, pos + 1, end);
    }
}

pub proof fn lemma_line_end_bounds(data: Seq<u8>, pos: int)
    requires
        0 <= pos,
    ensures
        pos <= data.len() ==> pos <= line_end(data, pos) <= data.len(),
        pos > data.len() ==> line_end(data, pos) == data.len(),
    decreases data.len() - pos,
{
    if pos < data.len() && data[pos] != 10 {
        lemma_line_end_bounds(data, pos + 1);
    }
}

/// Where the line that holds the byte at `pos` ends.
pub fn find_line_end(data: &[u8], pos: usize) -> (end: usize)
    requires
        pos <= data@.len(),
    ensures
        end == line_end(data@, pos as int),
        pos <= end <= data@.len(),
{
    let rest = slice_subrange(data, pos, data.len());
    let end: usize = match memchr::memchr(10, rest) {
        Some(i) => pos + i,
        None => data.len(),
    };
    proof {
        assert forall|j: int| pos <= j < end implies data@[j] != 10 by {
            assert(rest@[j - pos] == data@[j]);
        }
        assert(end < data@.len() ==> rest@[end - pos] == data@[end as int]);
        lemma_line_end(data@, pos as int, end as int);
    }
    end
}

/// What a scan works on: the bytes of the trace, what is looked for, the line numbers to pass
/// over, and the texts of the calls made at some lines.
pub struct ScanView {
    pub data: Seq<u8>,
    pub mode: ModeView,
    pub consumed: Set<u32>,
    pub call_texts: Map<u32, String>,
}

/// Line number `seq`, with the bytes `line`, is among what the scan finds: it is not to be passed
/// over, and the line or the text of the call made there holds what is looked for.
pub open spec fn is_hit(scan: ScanView, seq: u32, line: Seq<u8>) -> bool {
    &&& !scan.consumed.contains(seq)
    &&& {
        ||| found_in(scan.mode, line)
        ||| scan.call_texts.contains_key(seq) && found_in(
            scan.mode,
            encode_utf8(scan.call_texts[seq]@),
        )
    }
}

/// The `k`th line after `offset` exists and, as line number `seq`, is among what the scan finds.
pub open spec fn line_is_hit(scan: ScanView, offset: int, k: nat, seq: int) -> bool {
    let pos = line_start(scan.data, offset, k);
    pos < scan.data.len() && is_hit(scan, seq as u32, line_from(scan.data, pos))
}

/// The numbers of those among the `n` lines after `offset` that the scan finds, in order; the
/// first of the lines has the number `start`.
pub open spec fn hits(scan: ScanView, offset: int, start: int, n: nat) -> Seq<u32>
    decreases n,
{
    if n == 0 {
        Seq::empty()
    } else {
        let front = hits(scan, offset, start, (n - 1) as nat);
        if line_is_hit(scan, offset, (n - 1) as nat, start + n - 1) {
            front.push((start + n - 1) as u32)
        } else {
            front
        }
    }
}

/// At most the first `n` of `s`.
pub open spec fn first_of<T>(s: Seq<T>, n: int) -> Seq<T> {
    if n < s.len() {
        s.take(n)
    } else {
        s
    }
}

/// From `lo` to below `hi`: how many.
pub open spec fn count_between(lo: int, hi: int) -> nat {
    if lo < hi {
        (hi - lo) as nat
    } else {
        0
    }
}

proof fn lemma_no_more_lines(scan: ScanView, offset: int, start: int, k: nat, n: nat)
    requires
        0 <= offset,
        k <= n,
        line_start(scan.data, offset, k) >= scan.data.len(),
    ensures
        hits(scan, offset, start, n) == hits(scan, offset, start, k),
        line_start(scan.data, offset, n) >= scan.data.len(),
    decreases n - k,
{
    if k < n {
        lemma_no_more_lines(scan, offset, start, k, (n - 1) as nat);
        lemma_line_start_nonneg(scan.data, offset, (n - 1) as nat);
        lemma_line_end_bounds(scan.data, line_start(scan.data, offset, (n - 1) as nat));
    }
}

pub proof fn lemma_line_start_nonneg(data: Seq<u8>, offset: int, k: nat)
    requires
        0 <= offset,
    ensures
        0 <= line_start(data, offset, k),
    decreases k,
{
    if k > 0 {
        lemma_line_start_nonneg(data, offset, (k - 1) as nat);
        lemma_line_end_bounds(data, line_start(data, offset, (k - 1) as nat));
    }
}

pub proof fn lemma_hits_len(scan: ScanView, offset: int, start: int, n: nat)
    ensures
        hits(scan, offset, start, n).len() <= n,
    decreases n,
{
    if n > 0 {
        lemma_hits_len(scan, offset, start, (n - 1) as nat);
    }
}

/// The scan of `data` for `mode` that `consumed_seqs` and `call_search_texts` belong to.
pub open spec fn scan_of(
    data: Seq<u8>,
    mode: ModeView,
    consumed_seqs: HashSet<u32>,
    call_search_texts: HashMap<u32, String>,
) -> ScanView {
    ScanView { data, mode, consumed: consumed_seqs@, call_texts: call_search_texts@ }
}

/// Filtering one entry more appends it or leaves it out.
pub proof fn lemma_filter_step<T>(s: Seq<T>, keep: spec_fn(T) -> bool, i: int)
    requires
        0 <= i < s.len(),
    ensures
        s.take(i + 1).filter(keep) == if keep(s[i]) {
            s.take(i).filter(keep).push(s[i])
        } else {
            s.take(i).filter(keep)
        },
{
    reveal(Seq::filter);
    assert(s.take(i + 1).drop_last() =~= s.take(i));
}

/// Filtering no entry leaves none, and filtering up to the end is filtering all.
pub proof fn lemma_filter_ends<T>(s: Seq<T>, keep: spec_fn(T) -> bool)
    ensures
        s.take(0).filter(keep) == Seq::<T>::empty(),
        s.take(s.len() as int).filter(keep) == s.filter(keep),
{
    reveal(Seq::filter);
    assert(s.take(0) =~= Seq::<T>::empty());
    assert(s.take(s.len() as int) =~= s);
}

/// Each number is greater than those before it.
pub open spec fn ascending(s: Seq<u32>) -> bool {
    forall|i: int, j: int| 0 <= i < j < s.len() ==> s[i] < s[j]
}

/// What is kept of ascending numbers is ascending, and is what was there and is to be kept.
pub proof fn lemma_filter_ascending(s: Seq<u32>, keep: spec_fn(u32) -> bool)
    requires
        ascending(s),
    ensures
        ascending(s.filter(keep)),
        forall|x: u32| #[trigger] s.filter(keep).contains(x) <==> s.contains(x) && keep(x),
    decreases s.len(),
{
    reveal(Seq::filter);
    if s.len() > 0 {
        let rest = s.drop_last();
        lemma_filter_ascending(rest, keep);
        let kept = rest.filter(keep);
        assert forall|x: u32| #[trigger] s.filter(keep).contains(x) <==> s.contains(x) && keep(
            x,
        ) by {
            if s.contains(x) && keep(x) {
                let i = choose|i: int| 0 <= i < s.len() && s[i] == x;
                if i < rest.len() {
                    assert(rest[i] == x);
                    assert(kept.contains(x));
                    let k = choose|k: int| 0 <= k < kept.len() && kept[k] == x;
                    assert(s.filter(keep)[k] == x);
                } else {
                    assert(s.filter(keep).last() == x);
                }
            }
            if s.filter(keep).contains(x) {
                let k = choose|k: int| 0 <= k < s.filter(keep).len() && s.filter(keep)[k] == x;
                if k < kept.len() {
                    assert(kept[k] == x);
                    assert(kept.contains(x));
                    let i = choose|i: int| 0 <= i < rest.len() && rest[i] == x;
                    assert(s[i] == x);
                } else {
                    assert(s.last() == x);
                }
            }
        }
        assert forall|i: int, j: int| 0 <= i < j < s.filter(keep).len() implies s.filter(keep)[i]
            < s.filter(keep)[j] by {
            if j == kept.len() {
                assert(kept.contains(kept[i]));
                let k = choose|k: int| 0 <= k < rest.len() && rest[k] == kept[i];
                assert(s[k] < s.last());
            }
        }
    } else {
        assert(s.filter(keep) =~= Seq::<u32>::empty());
    }
}

/// The numbers in `v`, as a set.
pub fn number_set(v: &Vec<u32>) -> (r: HashSet<u32>)
    ensures
        r@ == v@.to_set(),
{
    let mut set: HashSet<u32> = HashSet::new();
    let mut i: usize = 0;
    while i < v.len()
        invariant
            i <= v@.len(),
            forall|x: u32|
                set@.contains(x) <==> exists|k: int| 0 <= k < i && #[trigger] v@[k] == x,
        decreases v@.len() - i,
    {
        let x: u32 = v[i];
        set.insert(x);
        assert(v@[i as int] == x);
        i = i + 1;
    }
    assert(set@ =~= v@.to_set());
    set
}

/// Collects the numbers of the lines from `start_seq` to below `end_seq` that the scan finds, at
/// most `max_results_per_chunk` of them, and counts them all. The first of the lines starts at
/// `start_offset`.
pub fn search_chunk_seqs(
    data: &[u8],
    start_seq: u32,
    end_seq: u32,
    start_offset: usize,
    mode: &SearchMode,
    consumed_seqs: &HashSet<u32>,
    call_search_texts: &HashMap<u32, String>,
    max_results_per_chunk: usize,
) -> (r: (Vec<u32>, u32))
    ensures
        r.1 == hits(
            scan_of(data@, mode@, *consumed_seqs, *call_search_texts),
            start_offset as int,
            start_seq as int,
            count_between(start_seq as int, end_seq as int),
        ).len(),
        r.0@ == first_of(
            hits(
                scan_of(data@, mode@, *consumed_seqs, *call_search_texts),
                start_offset as int,
                start_seq as int,
                count_between(start_seq as int, end_seq as int),
            ),
            max_results_per_chunk as int,
        ),
{
    let ghost scan = scan_of(data@, mode@, *consumed_seqs, *call_search_texts);
    let mut match_seqs: Vec<u32> = Vec::new();
    let mut total_matches: u32 = 0;
    let mut pos: usize = start_offset;
    let mut seq: u32 = start_seq;
    while pos < data.len() && seq < end_seq
        invariant
            scan == scan_of(data@, mode@, *consumed_seqs, *call_search_texts),
            start_seq <= seq,
            seq <= end_seq || seq == start_seq,
            pos < data@.len() ==> line_start(data@, start_offset as int, (seq - start_seq) as nat)
                == pos,
            pos >= data@.len() ==> line_start(
                data@,
                start_offset as int,
                (seq - start_seq) as nat,
            ) >= data@.len(),
            total_matches <= seq - start_seq,
            total_matches == hits(
                scan,
                start_offset as int,
                start_seq as int,
                (seq - start_seq) as nat,
            ).len(),
            match_seqs@ == first_of(
                hits(scan, start_offset as int, start_seq as int, (seq - start_seq) as nat),
                max_results_per_chunk as int,
            ),
        decreases end_seq - seq,
    {
        let ghost front = hits(
            scan,
            start_offset as int,
            start_seq as int,
            (seq - start_seq) as nat,
        );
        let end: usize = find_line_end(data, pos);
        let line = slice_subrange(data, pos, end);
        assert(line@ == line_from(data@, pos as int));
        if !consumed_seqs.contains(&seq) {
            let call_text: Option<&[u8]> = match call_search_texts.get(&seq) {
                Some(t) => Some(t.as_str().as_bytes()),
                None => None,
            };
            if matches_line(mode, line, call_text) {
                assert(line_is_hit(
                    scan,
                    start_offset as int,
                    (seq - start_seq) as nat,
                    seq as int,
                ));
                total_matches = total_matches + 1;
                if match_seqs.len() < max_results_per_chunk {
                    match_seqs.push(seq);
                }
                assert(match_seqs@ =~= first_of(front.push(seq), max_results_per_chunk as int));
            }
        }
        pos = if end < data.len() {
            end + 1
        } else {
            data.len()
        };
        seq = seq + 1;
    }
    proof {
        let n = count_between(start_seq as int, end_seq as int);
        let k = (seq - start_seq) as nat;
        if pos >= data@.len() {
            lemma_no_more_lines(scan, start_offset as int, start_seq as int, k, n);
        }
    }
    (match_seqs, total_matches)
}

proof fn lemma_line_start_adds(data: Seq<u8>, offset: int, a: nat, b: nat)
    ensures
        line_start(data, line_start(data, offset, a), b) == line_start(data, offset, a + b),
    decreases b,
{
    if b > 0 {
        lemma_line_start_adds(data, offset, a, (b - 1) as nat);
    }
}

/// Scanning some lines and then the lines that follow them finds what scanning them all finds.
pub proof fn law_hits_of_two_parts(scan: ScanView, offset: int, start: int, a: nat, b: nat)
    ensures
        hits(scan, offset, start, a + b) == hits(scan, offset, start, a) + hits(
            scan,
            line_start(scan.data, offset, a),
            start + a,
            b,
        ),
    decreases b,
{
    if b > 0 {
        law_hits_of_two_parts(scan, offset, start, a, (b - 1) as nat);
        lemma_line_start_adds(scan.data, offset, a, (b - 1) as nat);
    }
    assert(hits(scan, offset, start, a + b) =~= hits(scan, offset, start, a) + hits(
        scan,
        line_start(scan.data, offset, a),
        start + a,
        b,
    ));
}

/// What a scan finds is in ascending order, without repetition, and holds the number of a line
/// exactly if that line is found.
pub proof fn law_hits_are_the_found_lines(scan: ScanView, offset: int, start: int, n: nat)
    requires
        0 <= start,
        start + n <= u32::MAX + 1,
    ensures
        hits(scan, offset, start, n).len() <= n,
        forall|i: int, j: int|
            0 <= i < j < hits(scan, offset, start, n).len() ==> hits(scan, offset, start, n)[i]
                < hits(scan, offset, start, n)[j],
        forall|seq: u32|
            #[trigger] hits(scan, offset, start, n).contains(seq) <==> start <= seq < start + n
                && line_is_hit(scan, offset, (seq - start) as nat, seq as int),
    decreases n,
{
    let h = hits(scan, offset, start, n);
    if n > 0 {
        law_hits_are_the_found_lines(scan, offset, start, (n - 1) as nat);
        let front = hits(scan, offset, start, (n - 1) as nat);
        let last = start + n - 1;
        let found = line_is_hit(scan, offset, (n - 1) as nat, last);
        assert forall|i: int| 0 <= i < front.len() implies front[i] < last by {
            assert(front.contains(front[i]));
        }
        assert forall|seq: u32|
            #[trigger] h.contains(seq) <==> start <= seq < start + n && line_is_hit(
                scan,
                offset,
                (seq - start) as nat,
                seq as int,
            ) by {
            assert(front.contains(seq) <==> start <= seq < last && line_is_hit(
                scan,
                offset,
                (seq - start) as nat,
                seq as int,
            ));
            if found {
                assert(h[front.len() as int] == last as u32);
                if h.contains(seq) {
                    let i = choose|i: int| 0 <= i < h.len() && h[i] == seq;
                    if i < front.len() {
                        assert(front[i] == seq);
                        assert(front.contains(seq));
                    }
                }
                if front.contains(seq) {
                    let i = choose|i: int| 0 <= i < front.len() && front[i] == seq;
                    assert(h[i] == seq);
                }
            }
        }
    }
}

/// A piece of work: the first line number, the line number to stop before, and where the first
/// line starts.
pub type Chunk = (u32, u32, usize);

/// How many lines each of `n` chunks of `total` lines has, the last one perhaps fewer.
pub open spec fn chunk_lines(total: int, n: int) -> int {
    (total + n - 1) / n
}

/// The `i`th chunk of `size` lines out of `total`.
pub open spec fn nth_chunk(data: Seq<u8>, total: int, size: int, i: int) -> Chunk {
    (
        (i * size) as u32,
        (if (i + 1) * size < total {
            (i + 1) * size
        } else {
            total
        }) as u32,
        line_start(data, 0, (i * size) as nat) as usize,
    )
}

/// The `chunks` follow each other from the first line to the last of `total`.
pub open spec fn tiles(chunks: Seq<Chunk>, data: Seq<u8>, total: int) -> bool {
    &&& chunks.len() > 0
    &&& chunks[0].0 == 0
    &&& chunks.last().1 == total
    &&& forall|i: int| 0 <= i < chunks.len() - 1 ==> (#[trigger] chunks[i]).1 == chunks[i + 1].0
    &&& forall|i: int|
        0 <= i < chunks.len() ==> {
            &&& (#[trigger] chunks[i]).0 < chunks[i].1
            &&& chunks[i].2 == line_start(data, 0, chunks[i].0 as nat)
        }
}

/// What a scan finds chunk by chunk, one behind the other.
pub open spec fn chunk_hits(scan: ScanView, chunks: Seq<Chunk>) -> Seq<u32>
    decreases chunks.len(),
{
    if chunks.len() == 0 {
        Seq::empty()
    } else {
        let last = chunks.last();
        chunk_hits(scan, chunks.drop_last()) + hits(
            scan,
            last.2 as int,
            last.0 as int,
            count_between(last.0 as int, last.1 as int),
        )
    }
}

/// Scanning the lines in chunks that follow each other finds what one scan over all lines finds:
/// no line is lost at a border, and none is counted twice.
pub proof fn law_chunks_find_what_one_scan_finds(scan: ScanView, chunks: Seq<Chunk>, total: int)
    requires
        tiles(chunks, scan.data, total),
    ensures
        chunk_hits(scan, chunks) == hits(scan, 0, 0, total as nat),
    decreases chunks.len(),
{
    let last = chunks.last();
    let before = chunks.drop_last();
    assert(chunks[chunks.len() - 1] == last);
    if before.len() > 0 {
        assert(before.last() == chunks[chunks.len() - 2]);
        assert(chunks[chunks.len() - 2].1 == chunks[chunks.len() - 2 + 1].0);
        assert forall|i: int| 0 <= i < before.len() - 1 implies (#[trigger] before[i]).1
            == before[i + 1].0 by {
            assert(chunks[i].1 == chunks[i + 1].0);
        }
        assert forall|i: int| 0 <= i < before.len() implies {
            &&& (#[trigger] before[i]).0 < before[i].1
            &&& before[i].2 == line_start(scan.data, 0, before[i].0 as nat)
        } by {
            assert(chunks[i] == before[i]);
        }
        law_chunks_find_what_one_scan_finds(scan, before, last.0 as int);
    } else {
        assert(hits(scan, 0, 0, 0) =~= Seq::<u32>::empty());
    }
    law_hits_of_two_parts(scan, 0, 0, last.0 as nat, (total - last.0) as nat);
    assert(chunk_hits(scan, before) == hits(scan, 0, 0, last.0 as nat));
    assert(count_between(last.0 as int, last.1 as int) == (total - last.0) as nat);
    assert(last.2 == line_start(scan.data, 0, last.0 as nat));
}

/// Runs `search_chunk_seqs` on every chunk with the parallel iterators of `rayon` (`par_iter`,
/// `map`, `collect`). Claimed of them: the results are those of the calls, in the order of the
/// chunks.
#[verifier::external_body]
fn search_chunks(
    data: &[u8],
    chunks: &Vec<Chunk>,
    mode: &SearchMode,
    consumed_seqs: &HashSet<u32>,
    call_search_texts: &HashMap<u32, String>,
    max_results: usize,
) -> (r: Vec<(Vec<u32>, u32)>)
    ensures
        r@.len() == chunks@.len(),
        forall|i: int|
            0 <= i < chunks@.len() ==> (#[trigger] r@[i]).1 == hits(
                scan_of(data@, mode@, *consumed_seqs, *call_search_texts),
                chunks@[i].2 as int,
                chunks@[i].0 as int,
                count_between(chunks@[i].0 as int, chunks@[i].1 as int),
            ).len(),
        forall|i: int|
            0 <= i < chunks@.len() ==> (#[trigger] r@[i]).0@ == first_of(
                hits(
                    scan_of(data@, mode@, *consumed_seqs, *call_search_texts),
                    chunks@[i].2 as int,
                    chunks@[i].0 as int,
                    count_between(chunks@[i].0 as int, chunks@[i].1 as int),
                ),
                max_results as int,
            ),
{
    chunks
        .par_iter()
        .map(|c| search_chunk_seqs(data, c.0, c.1, c.2, mode, consumed_seqs, call_search_texts, max_results))
        .collect()
}

/// Collects what a scan finds chunk by chunk: at most `max_results` of the line numbers, and how
/// many there are.
pub fn search_in_chunks(
    data: &[u8],
    total_lines: u32,
    chunks: &Vec<Chunk>,
    mode: &SearchMode,
    consumed_seqs: &HashSet<u32>,
    call_search_texts: &HashMap<u32, String>,
    max_results: usize,
) -> (r: (Vec<u32>, u32))
    requires
        tiles(chunks@, data@, total_lines as int),
    ensures
        r.1 == hits(
            scan_of(data@, mode@, *consumed_seqs, *call_search_texts),
            0,
            0,
            total_lines as nat,
        ).len(),
        r.0@ == first_of(
            hits(
                scan_of(data@, mode@, *consumed_seqs, *call_search_texts),
                0,
                0,
                total_lines as nat,
            ),
            max_results as int,
        ),
{
    let ghost scan = scan_of(data@, mode@, *consumed_seqs, *call_search_texts);
    let results = search_chunks(data, chunks, mode, consumed_seqs, call_search_texts, max_results);
    let mut merged: Vec<u32> = Vec::new();
    let mut total_matches: u32 = 0;
    let mut i: usize = 0;
    let ghost mut done: nat = 0;
    while i < results.len()
        invariant
            scan == scan_of(data@, mode@, *consumed_seqs, *call_search_texts),
            tiles(chunks@, data@, total_lines as int),
            results@.len() == chunks@.len(),
            forall|k: int|
                0 <= k < chunks@.len() ==> (#[trigger] results@[k]).1 == hits(
                    scan,
                    chunks@[k].2 as int,
                    chunks@[k].0 as int,
                    count_between(chunks@[k].0 as int, chunks@[k].1 as int),
                ).len(),
            forall|k: int|
                0 <= k < chunks@.len() ==> (#[trigger] results@[k]).0@ == first_of(
                    hits(
                        scan,
                        chunks@[k].2 as int,
                        chunks@[k].0 as int,
                        count_between(chunks@[k].0 as int, chunks@[k].1 as int),
                    ),
                    max_results as int,
                ),
            i <= results@.len(),
            i < results@.len() ==> done == chunks@[i as int].0,
            i == results@.len() ==> done == total_lines,
            done <= u32::MAX,
            total_matches == hits(scan, 0, 0, done).len(),
            merged@ == first_of(hits(scan, 0, 0, done), max_results as int),
        decreases results@.len() - i,
    {
        let ghost before = hits(scan, 0, 0, done);
        let ghost n = count_between(chunks@[i as int].0 as int, chunks@[i as int].1 as int);
        let ghost here = hits(scan, chunks@[i as int].2 as int, chunks@[i as int].0 as int, n);
        proof {
            assert(chunks@[i as int].0 < chunks@[i as int].1);
            law_hits_of_two_parts(scan, 0, 0, done, n);
            lemma_hits_len(scan, 0, 0, done + n);
            assert(hits(scan, 0, 0, done + n) == before + here);
        }
        let part = &results[i];
        assert(part.1 == here.len());
        assert(part.0@ == first_of(here, max_results as int));
        total_matches = total_matches + part.1;
        let mut j: usize = 0;
        while j < part.0.len() && merged.len() < max_results
            invariant
                part.0@ == first_of(here, max_results as int),
                j <= part.0@.len(),
                j > 0 || merged@ == first_of(before, max_results as int),
                j > 0 ==> before.len() + j <= max_results && merged@ == before + here.take(
                    j as int,
                ),
            decreases part.0@.len() - j,
        {
            assert(here.take(0) =~= Seq::<u32>::empty());
            assert(here.take(j + 1) =~= here.take(j as int).push(here[j as int]));
            merged.push(part.0[j]);
            assert(merged@ =~= before + here.take(j + 1));
            j = j + 1;
        }
        assert(merged@ =~= first_of(before + here, max_results as int));
        proof {
            done = done + n;
        }
        i = i + 1;
    }
    (merged, total_matches)
}

/// A line ends before the first line feed at or behind a place in it, or where the data ends; what
/// is read of it is what stands before that.
pub proof fn law_a_line_ends_at_its_line_feed(data: Seq<u8>, pos: int)
    requires
        0 <= pos <= data.len(),
    ensures
        pos <= line_end(data, pos) <= data.len(),
        forall|j: int| pos <= j < line_end(data, pos) ==> data[j] != 10,
        line_end(data, pos) < data.len() ==> data[line_end(data, pos)] == 10,
        line_from(data, pos) == data.subrange(pos, line_end(data, pos)),
    decreases data.len() - pos,
{
    if pos < data.len() && data[pos] != 10 {
        law_a_line_ends_at_its_line_feed(data, pos + 1);
    }
}

/// The first line starts where it is said to start, and each other line right behind the line feed
/// of the one before it.
pub proof fn law_lines_follow_each_other(data: Seq<u8>, offset: int, k: nat)
    ensures
        line_start(data, offset, 0) == offset,
        line_start(data, offset, k + 1) == line_end(data, line_start(data, offset, k)) + 1,
{
}

/// A scan finds a line exactly if the data has the line, it is not to be passed over, and its bytes
/// or the text of the call made there hold what is looked for.
pub proof fn law_when_a_line_is_found(scan: ScanView, offset: int, k: nat, seq: u32)
    ensures
        line_is_hit(scan, offset, k, seq as int) <==> {
            let start = line_start(scan.data, offset, k);
            &&& start < scan.data.len()
            &&& !scan.consumed.contains(seq)
            &&& found_in(scan.mode, scan.data.subrange(start, line_end(scan.data, start))) || (
            scan.call_texts.contains_key(seq) && found_in(
                scan.mode,
                encode_utf8(scan.call_texts[seq]@),
            ))
        },
{
}

/// At most the first `n` entries are the entries from the first on, `n` of them or, where there are
/// not as many, all.
pub proof fn law_the_first_entries<T>(s: Seq<T>, n: int, lo: int, hi: int)
    requires
        0 <= n,
    ensures
        first_of(s, n).len() == if n <= s.len() {
            n
        } else {
            s.len() as int
        },
        forall|i: int| 0 <= i < first_of(s, n).len() ==> #[trigger] first_of(s, n)[i] == s[i],
        lo <= hi ==> count_between(lo, hi) == hi - lo,
        lo > hi ==> count_between(lo, hi) == 0,
{
}

/// A scan works on the data and for what it was given, and passes over no other lines and looks at
/// no other texts than those it was given.
pub proof fn law_a_scan_is_what_was_asked_for(
    data: Seq<u8>,
    mode: ModeView,
    consumed_seqs: HashSet<u32>,
    call_search_texts: HashMap<u32, String>,
)
    ensures
        ({
            let scan = scan_of(data, mode, consumed_seqs, call_search_texts);
            &&& scan.data == data
            &&& scan.mode == mode
            &&& scan.consumed == consumed_seqs@
            &&& scan.call_texts == call_search_texts@
        }),
{
}

} // verus!
