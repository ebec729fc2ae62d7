//! Showing where cryptographic algorithms were detected.

use vstd::prelude::*;
use vstd::string::*;

use crate::api_types::TraceLine;
use crate::requests::AnalyzeCryptoRequest;
use crate::tools::browse::{add_up_to_max, min_of, min_u32, number_range, numbers, subtract_to_zero};
use crate::tools::lines::{compact_line, compacted, CompactLine};

verus! {

/// How many lines before and after a detection are shown at most.
pub const MAX_CRYPTO_CONTEXT: u32 = 10;

/// A constant of a known algorithm, seen at a line.
pub struct CryptoMatch {
    pub algorithm: String,
    pub magic_hex: String,
    pub seq: u32,
    pub address: String,
    pub disasm: String,
}

/// What a scan for such constants found.
pub struct CryptoScanResult {
    pub matches: Vec<CryptoMatch>,
    pub algorithms_found: Vec<String>,
    pub total_lines_scanned: u32,
}

/// Whether a scan is needed: only where the engine keeps none that it could read. Where it keeps
/// one, that is taken.
pub fn kept_scan(loaded: Result<Option<CryptoScanResult>, String>) -> (r: Option<CryptoScanResult>)
    ensures
        r == match loaded {
            Ok(kept) => kept,
            Err(_) => None,
        },
{
    match loaded {
        Ok(kept) => kept,
        Err(_) => None,
    }
}

/// How many lines before and after a detection a request is given.
pub open spec fn crypto_width(req: AnalyzeCryptoRequest) -> int {
    min_of(req.context_lines as int, MAX_CRYPTO_CONTEXT as int)
}

/// The number of the first line shown round the line `seq`.
pub open spec fn window_start(seq: u32, width: int) -> int {
    if width < seq {
        seq - width
    } else {
        0
    }
}

/// The number of the last line shown round the line `seq`.
pub open spec fn window_end(seq: u32, width: int) -> int {
    min_of(seq + width, u32::MAX as int)
}

/// The numbers of the lines shown round the line `seq`.
pub open spec fn window(seq: u32, width: int) -> Seq<u32> {
    numbers(window_start(seq, width), window_end(seq, width) + 1)
}

/// Which lines to load for a detection.
pub fn context_window(req: &AnalyzeCryptoRequest, m: &CryptoMatch) -> (r: Vec<u32>)
    ensures
        r@ == window(m.seq, crypto_width(*req)),
{
    let width: u32 = min_u32(req.context_lines, MAX_CRYPTO_CONTEXT);
    let start: u32 = subtract_to_zero(m.seq, width);
    let end: u32 = add_up_to_max(m.seq, width);
    let mut r = number_range(start, end);
    r.push(end);
    assert(r@ =~= window(m.seq, width as int));
    r
}

/// A line round a detection.
pub struct CryptoContextLine {
    pub line: CompactLine,
    pub is_match: bool,
}

/// The lines round the line `seq`, as they are shown.
pub open spec fn context_shown(lines: Seq<TraceLine>, seq: u32) -> Seq<CryptoContextLine> {
    Seq::new(
        lines.len(),
        |i: int| CryptoContextLine { line: compacted(lines[i]), is_match: lines[i].seq == seq },
    )
}

/// A detection with the lines round it.
pub struct CryptoDetection {
    pub algorithm: String,
    pub magic_hex: String,
    pub seq: u32,
    pub address: String,
    pub disasm: String,
    pub context: Vec<CryptoContextLine>,
}

/// The detection is shown as this, with these lines round it.
pub open spec fn detected_as(m: CryptoMatch, lines: Seq<TraceLine>, d: CryptoDetection) -> bool {
    &&& d.algorithm == m.algorithm
    &&& d.magic_hex == m.magic_hex
    &&& d.seq == m.seq
    &&& d.address == m.address
    &&& d.disasm == m.disasm
    &&& d.context@ == context_shown(lines, m.seq)
}

fn show_context(lines: &Vec<TraceLine>, seq: u32) -> (r: Vec<CryptoContextLine>)
    ensures
        r@ == context_shown(lines@, seq),
{
    let mut r: Vec<CryptoContextLine> = Vec::new();
    let mut i: usize = 0;
    while i < lines.len()
        invariant
            i <= lines@.len(),
            r@ == context_shown(lines@.take(i as int), seq),
        decreases lines@.len() - i,
    {
        r.push(
            CryptoContextLine { line: compact_line(&lines[i]), is_match: lines[i].seq == seq },
        );
        assert(r@ =~= context_shown(lines@.take(i + 1), seq));
        i = i + 1;
    }
    assert(lines@.take(lines@.len() as int) =~= lines@);
    r
}

/// Shows a detection with the lines round it, as far as they could be loaded.
pub fn show_detection(m: &CryptoMatch, lines: &Vec<TraceLine>) -> (r: CryptoDetection)
    ensures
        detected_as(*m, lines@, r),
{
    CryptoDetection {
        algorithm: m.algorithm.clone(),
        magic_hex: m.magic_hex.clone(),
        seq: m.seq,
        address: m.address.clone(),
        disasm: m.disasm.clone(),
        context: show_context(lines, m.seq),
    }
}

/// The answer to a request to look for algorithms.
pub struct CryptoResponse {
    pub algorithms_found: Vec<String>,
    pub match_count: usize,
    pub matches: Vec<CryptoDetection>,
    pub total_lines_scanned: u32,
    pub hint: String,
}

/// Answers a request to look for algorithms. `contexts` holds the lines round each detection.
pub fn crypto_response(scan: CryptoScanResult, contexts: &Vec<Vec<TraceLine>>) -> (r: CryptoResponse)
    requires
        contexts@.len() == scan.matches@.len(),
    ensures
        r.algorithms_found == scan.algorithms_found,
        r.match_count == scan.matches@.len(),
        r.matches@.len() == scan.matches@.len(),
        forall|i: int|
            0 <= i < scan.matches@.len() ==> detected_as(
                scan.matches@[i],
                contexts@[i]@,
                #[trigger] r.matches@[i],
            ),
        r.total_lines_scanned == scan.total_lines_scanned,
        r.hint@
            == "Use taint_analysis with 'reg:X0@<seq>' on a match's seq to trace the key/data source."@,
{
    let mut matches: Vec<CryptoDetection> = Vec::new();
    let mut i: usize = 0;
    while i < scan.matches.len()
        invariant
            i <= scan.matches@.len(),
            contexts@.len() == scan.matches@.len(),
            matches@.len() == i,
            forall|k: int|
                0 <= k < i ==> detected_as(
                    scan.matches@[k],
                    contexts@[k]@,
                    #[trigger] matches@[k],
                ),
        decreases scan.matches@.len() - i,
    {
        matches.push(show_detection(&scan.matches[i], &contexts[i]));
        i = i + 1;
    }
    CryptoResponse {
        algorithms_found: scan.algorithms_found,
        match_count: i,
        matches,
        total_lines_scanned: scan.total_lines_scanned,
        hint: "Use taint_analysis with 'reg:X0@<seq>' on a match's seq to trace the key/data source.".to_owned(),
    }
}

/// The lines shown round a detection are consecutive, the one of the detection is among them,
/// and there are 21 of them at most.
pub proof fn law_window_surrounds_the_detection(seq: u32, req: AnalyzeCryptoRequest)
    ensures
        ({
            let w = window(seq, crypto_width(req));
            &&& w.contains(seq)
            &&& w.len() <= 21
            &&& forall|i: int|
                0 <= i < w.len() ==> #[trigger] w[i] == window_start(seq, crypto_width(req)) + i
            &&& forall|x: u32| #[trigger]
                w.contains(x) <==> -crypto_width(req) <= x - seq <= crypto_width(req)
        }),
{
    let w = window(seq, crypto_width(req));
    let start = window_start(seq, crypto_width(req));
    assert(w[seq - start] == seq);
    assert forall|x: u32| #[trigger] w.contains(x) <==> -crypto_width(req) <= x - seq
        <= crypto_width(req) by {
        if -crypto_width(req) <= x - seq <= crypto_width(req) {
            assert(w[x - start] == x);
        }
    }
}

/// Of the lines shown round a detection, those marked as the match are exactly those with the
/// number of the detection. Every loaded line is shown, in order and with its main fields.
pub proof fn law_the_detected_line_is_marked(m: CryptoMatch, lines: Seq<TraceLine>, d: CryptoDetection)
    requires
        detected_as(m, lines, d),
    ensures
        d.context@.len() == lines.len(),
        forall|i: int|
            0 <= i < lines.len() ==> ((#[trigger] d.context@[i]).is_match <==> lines[i].seq == m.seq),
        forall|i: int|
            0 <= i < lines.len() ==> ((#[trigger] d.context@[i]).is_match
                <==> d.context@[i].line.seq == m.seq),
        forall|i: int|
            0 <= i < lines.len() ==> (#[trigger] d.context@[i]).line == compacted(lines[i]),
        forall|i: int|
            0 <= i < lines.len() ==> (#[trigger] d.context@[i]).line.seq == lines[i].seq
                && d.context@[i].line.disasm == lines[i].disasm,
        d.algorithm == m.algorithm,
        d.magic_hex == m.magic_hex,
        d.seq == m.seq,
        d.address == m.address,
        d.disasm == m.disasm,
{
}

/// With lines of distinct numbers, at most one line round a detection is marked.
pub proof fn law_one_line_is_marked(
    m: CryptoMatch,
    lines: Seq<TraceLine>,
    d: CryptoDetection,
    i: int,
    j: int,
)
    requires
        detected_as(m, lines, d),
        0 <= i < j < lines.len(),
        lines[i].seq != lines[j].seq,
    ensures
        !(d.context@[i].is_match && d.context@[j].is_match),
{
}

/// Round a detection lie the lines that are as many lines away as the request asks for, ten at
/// most, as far as line numbers go: from the lower end up, each number once.
pub proof fn law_window_is_as_wide_as_asked(seq: u32, req: AnalyzeCryptoRequest)
    ensures
        ({
            let width = if req.context_lines < 10 {
                req.context_lines as int
            } else {
                10
            };
            let w = window(seq, crypto_width(req));
            &&& forall|x: u32| #[trigger]
                w.contains(x) <==> seq <= x + width && x <= seq + width
            &&& forall|i: int, j: int|
                0 <= i && i < j && j < w.len() ==> #[trigger] w[i] < #[trigger] w[j]
        }),
{
    law_window_surrounds_the_detection(seq, req);
}

/// A scan that the engine keeps and can read is taken as it is; else there is none to take.
pub proof fn law_a_kept_scan_is_taken(
    loaded: Result<Option<CryptoScanResult>, String>,
    r: Option<CryptoScanResult>,
)
    requires
        call_ensures(kept_scan, (loaded,), r),
    ensures
        loaded matches Ok(kept) ==> r == kept,
        loaded is Err ==> r is None,
{
}

/// Every detection of the scan is shown, in order, with the lines loaded for it; of these, those
/// marked as the match are exactly those with the number of the detection.
pub proof fn law_every_detection_is_shown(
    scan: CryptoScanResult,
    contexts: Vec<Vec<TraceLine>>,
    r: CryptoResponse,
    d: int,
)
    requires
        contexts@.len() == scan.matches@.len(),
        call_ensures(crypto_response, (scan, &contexts), r),
        0 <= d < scan.matches@.len(),
    ensures
        r.match_count == r.matches@.len() == scan.matches@.len(),
        r.algorithms_found == scan.algorithms_found,
        r.total_lines_scanned == scan.total_lines_scanned,
        r.matches@[d].seq == scan.matches@[d].seq,
        r.matches@[d].algorithm == scan.matches@[d].algorithm,
        r.matches@[d].context@.len() == contexts@[d]@.len(),
        forall|i: int|
            0 <= i < contexts@[d]@.len() ==> (#[trigger] r.matches@[d].context@[i]).line
                == compacted(contexts@[d]@[i]),
        forall|i: int|
            0 <= i < contexts@[d]@.len() ==> ((#[trigger] r.matches@[d].context@[i]).is_match
                <==> r.matches@[d].context@[i].line.seq == scan.matches@[d].seq),
{
    assert(detected_as(scan.matches@[d], contexts@[d]@, r.matches@[d]));
    law_the_detected_line_is_marked(scan.matches@[d], contexts@[d]@, r.matches@[d]);
}

} // verus!
