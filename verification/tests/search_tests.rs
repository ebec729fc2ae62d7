use std::collections::HashMap;

use trace_tools::api_types::{TraceFormat, TraceLine};
use trace_tools::engine::{SessionHandle, TraceEngine};
use trace_tools::requests::SearchInstructionsRequest;
use trace_tools::tools::lines::ShownLine;
use trace_tools::tools::search::{search_response, select_instructions, InstructionSelection};

fn engine_over(data: Vec<u8>) -> TraceEngine {
    let mut session = SessionHandle::new("s".to_string(), data, TraceFormat::Gumtrace);
    session.index(TraceFormat::Gumtrace, HashMap::new(), HashMap::new(), vec![]);
    let mut e = TraceEngine::new();
    e.open_session(session);
    e
}

fn engine(lines: usize) -> TraceEngine {
    engine_over("bl x8\n".repeat(lines).into_bytes())
}

fn generation(e: &TraceEngine) -> u64 {
    e.fetch_search_page("s", 0, 0).unwrap().0
}

fn request(query: &str) -> SearchInstructionsRequest {
    SearchInstructionsRequest {
        session_id: None,
        query: query.to_string(),
        use_regex: false,
        case_sensitive: false,
        max_results: None,
        full: false,
        seq_range: None,
        addr_range: None,
        cache: None,
        seq_offset: None,
    }
}

fn line(seq: u32, so_offset: &str) -> TraceLine {
    TraceLine {
        seq,
        address: "0x1".to_string(),
        so_offset: so_offset.to_string(),
        so_name: None,
        disasm: "bl x8".to_string(),
        changes: "".to_string(),
        reg_before: "".to_string(),
        mem_rw: None,
        mem_addr: None,
        mem_size: None,
        raw: "".to_string(),
        call_info: None,
    }
}

fn select(e: &mut TraceEngine, req: &SearchInstructionsRequest) -> InstructionSelection {
    match select_instructions(e, "s", req, 1) {
        Ok(s) => s,
        Err(e) => panic!("{}", e),
    }
}

fn refused(e: &mut TraceEngine, id: &str, req: &SearchInstructionsRequest) -> String {
    match select_instructions(e, id, req, 1) {
        Ok(_) => panic!("no error"),
        Err(e) => e,
    }
}

#[test]
fn thirty_results_unless_told() {
    let mut e = engine(50);
    let s = select(&mut e, &request("BL"));
    assert_eq!(s.preview_seqs, (0..30).collect::<Vec<u32>>());
    assert_eq!((s.total_after_seq_filter, s.total_matches, s.total_scanned), (30, 50, 50));
    assert_eq!(generation(&e), 0);
}

#[test]
fn two_hundred_results_at_most() {
    let mut e = engine(500);
    let mut req = request("bl");
    req.max_results = Some(1000);
    let s = select(&mut e, &req);
    assert_eq!((s.preview_seqs.len(), s.total_after_seq_filter, s.total_matches), (200, 200, 500));
}

#[test]
fn a_kept_search_is_continued() {
    let mut e = engine(50);
    let mut req = request("bl");
    req.max_results = Some(20);
    req.cache = Some(true);
    let first = select(&mut e, &req);
    assert_eq!(first.preview_seqs, (0..20).collect::<Vec<u32>>());
    assert_eq!((first.total_matches, first.total_scanned), (50, 50));
    assert_eq!(generation(&e), 1);
    req.seq_offset = Some(20);
    let second = select(&mut e, &req);
    assert_eq!(second.preview_seqs, (20..40).collect::<Vec<u32>>());
    assert_eq!((second.total_matches, second.total_scanned), (0, 0));
    req.seq_offset = Some(40);
    assert_eq!(select(&mut e, &req).preview_seqs, (40..50).collect::<Vec<u32>>());
    assert_eq!(generation(&e), 1);
}

#[test]
fn an_offset_without_a_kept_search_searches_again() {
    let mut e = engine(50);
    let mut req = request("bl");
    req.seq_offset = Some(20);
    let s = select(&mut e, &req);
    assert_eq!((s.preview_seqs[0], s.total_matches), (0, 50));
}

#[test]
fn the_range_of_lines_filters() {
    let mut e = engine(50);
    let mut req = request("bl");
    req.seq_range = Some("5-7".to_string());
    let s = select(&mut e, &req);
    assert_eq!(s.preview_seqs, vec![5, 6, 7]);
    assert_eq!((s.total_after_seq_filter, s.total_matches), (3, 50));
    req.seq_range = Some("7".to_string());
    assert_eq!(
        refused(&mut e, "s", &req),
        "Invalid seq_range format '7'. Expected: '3000-6000'"
    );
}

#[test]
fn errors_of_the_engine_are_told() {
    let mut e = engine(1);
    assert_eq!(refused(&mut e, "zz", &request("bl")), "Session not found: zz");
    assert!(refused(&mut e, "s", &request("/(/")).starts_with("正则表达式错误: "));
    let mut req = request("bl");
    req.cache = Some(true);
    req.seq_offset = Some(1);
    assert_eq!(refused(&mut e, "zz", &req), "Session not found: zz");
}

#[test]
fn an_address_range_filters_the_results_at_hand() {
    let mut e = engine(3);
    let mut req = request("bl");
    req.max_results = Some(1);
    req.addr_range = Some("0x1-0x2".to_string());
    let s = select(&mut e, &req);
    assert_eq!(s.preview_seqs, vec![0]);
    assert_eq!((s.total_after_seq_filter, s.total_matches), (1, 3));
    match search_response(&req, &s, vec![line(0, "0x1")]) {
        Ok(r) => assert_eq!((r.matches.len(), r.total_matches, r.truncated), (1, 1, true)),
        Err(e) => panic!("{}", e),
    }
    match search_response(&req, &s, vec![line(0, "0x9")]) {
        Ok(r) => assert_eq!((r.matches.len(), r.total_matches, r.truncated), (0, 1, true)),
        Err(e) => panic!("{}", e),
    }
    req.cache = Some(true);
    let s = select(&mut e, &req);
    assert_eq!((s.preview_seqs, s.total_after_seq_filter), (vec![0], 1));
    req.seq_range = Some("1-2".to_string());
    let s = select(&mut e, &req);
    assert_eq!((s.preview_seqs, s.total_after_seq_filter), (vec![1], 2));
}

#[test]
fn matches_outside_the_range_do_not_use_up_the_limit() {
    let mut e = engine_over(b"bl a\nbl b\nnop".to_vec());
    let mut req = request("bl");
    req.max_results = Some(1);
    req.seq_range = Some("1-1".to_string());
    let s = select(&mut e, &req);
    assert_eq!(s.preview_seqs, vec![1]);
    assert_eq!((s.total_after_seq_filter, s.total_matches, s.total_scanned), (1, 2, 3));
    assert_eq!(generation(&e), 0);
    match search_response(&req, &s, vec![line(1, "")]) {
        Ok(r) => {
            assert!(matches!(&r.matches[..], [ShownLine::Compact(c)] if c.seq == 1));
            assert_eq!((r.total_matches, r.truncated), (1, true));
        }
        Err(e) => panic!("{}", e),
    }
}

#[test]
fn pages_of_a_kept_search_in_a_range() {
    let mut e = engine(100);
    let mut req = request("bl");
    req.max_results = Some(7);
    req.cache = Some(true);
    req.seq_range = Some("20-60".to_string());
    let mut all: Vec<u32> = Vec::new();
    for k in 0..6 {
        req.seq_offset = Some(k * 7);
        let s = select(&mut e, &req);
        if k > 0 {
            assert_eq!(s.total_after_seq_filter, s.preview_seqs.len());
        } else {
            assert_eq!(s.total_after_seq_filter, 41);
        }
        all.extend(s.preview_seqs);
    }
    assert_eq!(all, (20..=60).collect::<Vec<u32>>());
    assert_eq!(generation(&e), 1);
}

#[test]
fn errors_of_the_search_come_before_those_of_the_range() {
    let mut e = engine(1);
    let mut req = request("/(/");
    req.seq_range = Some("x".to_string());
    assert!(refused(&mut e, "s", &req).starts_with("正则表达式错误: "));
    req.query = "bl".to_string();
    assert_eq!(refused(&mut e, "s", &req), "Invalid seq_range format 'x'. Expected: '3000-6000'");
}

#[test]
fn a_full_page_without_filters_is_not_cut_short() {
    let lines: Vec<TraceLine> = (0..30).map(|i| line(i, "")).collect();
    match search_response(&request("bl"), &selection(30, 50), lines) {
        Ok(r) => assert_eq!((r.matches.len(), r.total_matches, r.truncated), (30, 50, false)),
        Err(e) => panic!("{}", e),
    }
}

fn selection(after: usize, total: u32) -> InstructionSelection {
    InstructionSelection {
        preview_seqs: vec![],
        total_after_seq_filter: after,
        total_matches: total,
        total_scanned: 99,
    }
}

#[test]
fn an_answer_without_filters() {
    let r = match search_response(&request("bl"), &selection(2, 2), vec![line(1, ""), line(2, "")]) {
        Ok(r) => r,
        Err(e) => panic!("{}", e),
    };
    assert_eq!((r.matches.len(), r.total_matches, r.total_scanned, r.truncated), (2, 2, 99, false));
    assert!(matches!(&r.matches[0], ShownLine::Compact(c) if c.seq == 1));
    let r = match search_response(&request("bl"), &selection(3, 3), vec![line(1, ""), line(2, "")]) {
        Ok(r) => r,
        Err(e) => panic!("{}", e),
    };
    assert!(r.truncated);
}

#[test]
fn an_answer_with_filters() {
    let mut req = request("bl");
    req.addr_range = Some("0x10-0x1f".to_string());
    req.full = true;
    let lines = || vec![line(1, "0x10"), line(2, "0x20"), line(3, "0x1f")];
    let r = match search_response(&req, &selection(3, 50), lines()) {
        Ok(r) => r,
        Err(e) => panic!("{}", e),
    };
    assert_eq!((r.matches.len(), r.total_matches, r.truncated), (2, 3, true));
    assert!(matches!(&r.matches[1], ShownLine::Full(l) if l.seq == 3));
    req.max_results = Some(1);
    req.seq_offset = Some(5);
    let r = match search_response(&req, &selection(1, 50), lines()) {
        Ok(r) => r,
        Err(e) => panic!("{}", e),
    };
    assert_eq!((r.matches.len(), r.total_matches, r.truncated), (1, 1, false));
    req.addr_range = Some("2-1".to_string());
    match search_response(&req, &selection(1, 50), lines()) {
        Ok(_) => panic!("no error"),
        Err(e) => assert_eq!(e, "Invalid addr_range: start (0x2) > end (0x1)"),
    }
}
