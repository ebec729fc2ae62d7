use trace_tools::api_types::TraceLine;
use trace_tools::requests::{GetTaintedLinesRequest, TaintAnalysisRequest};
use trace_tools::tools::lines::ShownLine;
use trace_tools::tools::taint::{
    after_seqs, after_slice, analysis_with_lines, context_query, context_seqs, describe_origin,
    slice_options, tainted_page, tainted_response, AnalysisStep, SliceOrigin, TaintStats,
    TaintedPage,
};

fn line(seq: u32, so_offset: &str, changes: &str) -> TraceLine {
    TraceLine {
        seq,
        address: "0x1".to_string(),
        so_offset: so_offset.to_string(),
        so_name: None,
        disasm: format!("insn {}", seq),
        changes: changes.to_string(),
        reg_before: "".to_string(),
        mem_rw: None,
        mem_addr: None,
        mem_size: None,
        raw: "".to_string(),
        call_info: None,
    }
}

fn plain(seqs: &[u32]) -> Vec<TraceLine> {
    seqs.iter().map(|&s| line(s, "", "x0=1")).collect()
}

fn request() -> GetTaintedLinesRequest {
    GetTaintedLinesRequest {
        session_id: None,
        offset: 0,
        limit: 50,
        full: false,
        ignore_stack_ops: true,
        addr_range: None,
        context_lines: 0,
    }
}

fn page(req: &GetTaintedLinesRequest, total: u32, lines: Vec<TraceLine>) -> TaintedPage {
    match tainted_page(req, total, lines) {
        Ok(p) => p,
        Err(e) => panic!("{}", e),
    }
}

fn seqs(p: &TaintedPage) -> Vec<u32> {
    p.lines.iter().map(|l| l.seq).collect()
}

fn shown_seq(l: &ShownLine) -> u32 {
    match l {
        ShownLine::Full(l) => l.seq,
        ShownLine::Compact(c) => c.seq,
    }
}

#[test]
fn origins_in_words() {
    let mut o = SliceOrigin {
        from_specs: vec!["reg:X0@last".to_string(), "mem:0xbffff000@5930".to_string()],
        data_only: true,
        start_seq: None,
        end_seq: None,
    };
    assert_eq!(
        describe_origin(&o),
        "taint from reg:X0@last, mem:0xbffff000@5930, data_only=true"
    );
    o.from_specs.pop();
    o.data_only = false;
    o.start_seq = Some(10);
    assert_eq!(describe_origin(&o), "taint from reg:X0@last, data_only=false, start_seq=10");
    o.end_seq = Some(4294967295);
    assert_eq!(
        describe_origin(&o),
        "taint from reg:X0@last, data_only=false, start_seq=10, end_seq=4294967295"
    );
}

#[test]
fn stack_operations_are_counted_and_left_out() {
    let lines = || vec![line(1, "", "sp=1"), line(2, "", "x0=1"), line(3, "", "fp=1")];
    let mut req = request();
    let p = page(&req, 4, lines());
    assert_eq!(seqs(&p), vec![2]);
    assert_eq!((p.total_tainted, p.total_after_filter, p.stack_ops_filtered), (4, 1, 3));
    req.ignore_stack_ops = false;
    let p = page(&req, 3, lines());
    assert_eq!(seqs(&p), vec![1, 2, 3]);
    assert_eq!((p.total_tainted, p.total_after_filter, p.stack_ops_filtered), (3, 3, 0));
    let p = page(&request(), 0, vec![]);
    assert_eq!((p.lines.len(), p.total_tainted, p.stack_ops_filtered), (0, 0, 0));
}

#[test]
fn tainted_lines_by_address() {
    let mut req = request();
    req.addr_range = Some("0x10-0x20".to_string());
    let p = page(&req, 3, vec![line(1, "0x10", ""), line(2, "0x21", ""), line(3, "0x20", "")]);
    assert_eq!(seqs(&p), vec![1, 3]);
    assert_eq!(p.total_after_filter, 2);
    req.addr_range = Some("nope".to_string());
    match tainted_page(&req, 0, vec![]) {
        Ok(_) => panic!("no error"),
        Err(e) => assert_eq!(e, "Invalid addr_range format 'nope'. Expected: '0x246F00-0x249800'"),
    }
}

#[test]
fn pages_of_tainted_lines() {
    let all: Vec<u32> = (0..300).collect();
    let mut req = request();
    req.limit = 1000;
    let p = page(&req, 300, plain(&all));
    assert_eq!(seqs(&p), (0..200).collect::<Vec<u32>>());
    let r = tainted_response(&req, &p, &all, &None, &vec![]);
    assert!(r.has_more);
    assert_eq!((r.count, r.offset, r.context_lines), (200, 0, None));
    assert!(r.context.is_none());
    assert!(r.lines.iter().all(|l| l.tainted.is_none()));
    req.offset = 200;
    let p = page(&req, 300, plain(&all));
    assert_eq!(seqs(&p), (200..300).collect::<Vec<u32>>());
    assert!(!tainted_response(&req, &p, &all, &None, &vec![]).has_more);
    req.offset = 4000000000;
    let p = page(&req, 300, plain(&all));
    assert_eq!(p.lines.len(), 0);
    assert!(!tainted_response(&req, &p, &all, &None, &vec![]).has_more);
}

#[test]
fn numbers_round_a_page() {
    assert_eq!(context_seqs(&plain(&[5, 7, 20]), 2), vec![3, 4, 5, 6, 7, 8, 9, 18, 19, 20, 21, 22]);
    assert_eq!(context_seqs(&plain(&[20, 5]), 0), vec![5, 20]);
    assert_eq!(context_seqs(&plain(&[1]), 3), vec![0, 1, 2, 3, 4]);
    assert_eq!(
        context_seqs(&plain(&[u32::MAX]), 2),
        vec![u32::MAX - 2, u32::MAX - 1, u32::MAX]
    );
    assert_eq!(context_seqs(&vec![], 5), vec![]);
}

#[test]
fn only_lines_off_the_page_are_loaded() {
    let mut req = request();
    let p = page(&req, 2, plain(&[5, 6]));
    assert!(context_query(&req, &p).is_none());
    req.context_lines = 1;
    assert_eq!(context_query(&req, &p), Some(vec![4, 7]));
    req.context_lines = 99;
    assert_eq!(context_query(&req, &p), Some(vec![0, 1, 2, 3, 4, 7, 8, 9, 10, 11]));
    let empty = page(&req, 0, vec![]);
    assert!(context_query(&req, &empty).is_none());
}

#[test]
fn lines_round_a_page_are_marked() {
    let mut req = request();
    req.context_lines = 1;
    req.full = true;
    let p = page(&req, 1, plain(&[5]));
    let origin = Some(SliceOrigin {
        from_specs: vec!["reg:X0@5".to_string()],
        data_only: false,
        start_seq: None,
        end_seq: None,
    });
    let mut late = line(6, "", "");
    late.disasm = "late".to_string();
    let r = tainted_response(&req, &p, &vec![5], &origin, &vec![line(6, "", ""), late]);
    assert_eq!(r.context.as_deref(), Some("taint from reg:X0@5, data_only=false"));
    let marks: Vec<(u32, Option<bool>)> =
        r.lines.iter().map(|l| (shown_seq(&l.line), l.tainted)).collect();
    assert_eq!(marks, vec![(5, Some(true)), (6, Some(false))]);
    assert!(matches!(&r.lines[1].line, ShownLine::Full(l) if l.disasm == "late"));
    assert_eq!((r.count, r.context_lines, r.has_more), (1, Some(1), false));
}

#[test]
fn tainted_lines_of_other_pages_are_marked_as_tainted() {
    let mut req = request();
    req.limit = 1;
    req.context_lines = 1;
    let p = page(&req, 3, vec![line(10, "", "x0=1"), line(11, "", "x0=1"), line(9, "", "sp=1")]);
    assert_eq!(seqs(&p), vec![10]);
    assert_eq!(context_query(&req, &p), Some(vec![9, 11]));
    let extra = vec![line(9, "", "sp=1"), line(11, "", "x0=1")];
    let r = tainted_response(&req, &p, &vec![10, 11, 9], &None, &extra);
    let marks: Vec<(u32, Option<bool>)> =
        r.lines.iter().map(|l| (shown_seq(&l.line), l.tainted)).collect();
    assert_eq!(marks, vec![(9, Some(true)), (10, Some(true)), (11, Some(true))]);
    let r = tainted_response(&req, &p, &vec![10, 9], &None, &extra);
    assert_eq!(r.lines[2].tainted, Some(false));
}

fn analysis(include_lines: u32) -> TaintAnalysisRequest {
    TaintAnalysisRequest {
        session_id: None,
        from_specs: vec!["reg:X0@last".to_string()],
        data_only: true,
        start_seq: Some(1),
        end_seq: None,
        include_lines,
        addr_range: None,
        ignore_stack_ops: true,
    }
}

fn stats(marked_count: u32) -> TaintStats {
    TaintStats { marked_count, total_lines: 1000, percentage: "1.00%".to_string() }
}

#[test]
fn what_is_traced() {
    let o = slice_options(&analysis(1));
    assert_eq!((o.start_seq, o.end_seq, o.data_only), (Some(1), None, true));
}

#[test]
fn numbers_only() {
    match after_slice(&analysis(0), stats(10)) {
        AnalysisStep::Answer(r) => {
            assert_eq!((r.stats.marked_count, r.stats.total_lines), (10, 1000));
            assert_eq!(r.stats.percentage, "1.00%");
            assert_eq!((r.lines.len(), r.total_after_filter, r.count), (0, 10, 0));
            assert!(r.has_more && r.stack_ops_filtered == 0);
            assert_eq!(
                r.hint.as_deref(),
                Some("Use get_tainted_lines to retrieve tainted instructions.")
            );
        }
        _ => panic!("no answer"),
    }
    assert!(matches!(after_slice(&analysis(0), stats(0)), AnalysisStep::Answer(r) if !r.has_more));
    assert!(matches!(after_slice(&analysis(1), stats(10)), AnalysisStep::GoOn(s) if s.marked_count == 10));
}

#[test]
fn nothing_marked() {
    match after_seqs(stats(0), &vec![]) {
        AnalysisStep::Answer(r) => {
            assert_eq!((r.lines.len(), r.total_after_filter, r.count), (0, 0, 0));
            assert!(!r.has_more && r.hint.is_none());
        }
        _ => panic!("no answer"),
    }
    assert!(matches!(after_seqs(stats(1), &vec![4]), AnalysisStep::GoOn(s) if s.marked_count == 1));
}

#[test]
fn analysis_shows_the_first_page() {
    let lines = || vec![line(1, "", "sp=1"), line(2, "", "x0=1"), line(3, "", "x1=1"), line(4, "", "x2=1")];
    let r = match analysis_with_lines(&analysis(2), stats(4), lines()) {
        Ok(r) => r,
        Err(e) => panic!("{}", e),
    };
    assert_eq!(r.lines.iter().map(shown_seq).collect::<Vec<u32>>(), vec![2, 3]);
    assert!(matches!(&r.lines[0], ShownLine::Compact(_)));
    assert_eq!((r.total_after_filter, r.stack_ops_filtered, r.count, r.has_more), (3, 1, 2, true));
    assert_eq!(
        r.hint.as_deref(),
        Some("Use get_tainted_lines with offset to see more results.")
    );
    let mut req = request();
    req.limit = 2;
    assert_eq!(seqs(&page(&req, 4, lines())), vec![2, 3]);
    let r = match analysis_with_lines(&analysis(500), stats(4), lines()) {
        Ok(r) => r,
        Err(e) => panic!("{}", e),
    };
    assert_eq!((r.count, r.has_more), (3, false));
    assert_eq!(r.hint.as_deref(), Some("All tainted lines included."));
}

#[test]
fn analysis_checks_the_address_range() {
    let mut req = analysis(5);
    req.ignore_stack_ops = false;
    req.addr_range = Some("0x9-0x1".to_string());
    match analysis_with_lines(&req, stats(1), plain(&[1])) {
        Ok(_) => panic!("no error"),
        Err(e) => assert_eq!(e, "Invalid addr_range: start (0x9) > end (0x1)"),
    }
    req.addr_range = Some("0x1-0x9".to_string());
    match analysis_with_lines(&req, stats(2), vec![line(1, "0x5", "sp=1"), line(2, "0xa", "")]) {
        Ok(r) => assert_eq!((r.count, r.total_after_filter, r.stack_ops_filtered), (1, 1, 0)),
        Err(e) => panic!("{}", e),
    }
}
