use std::collections::HashMap;

use trace_tools::api_types::{BuildResult, CallTreeNodeDto, SessionInfo, TraceFormat, TraceLine};
use trace_tools::commands::{
    build_options, dep_tree_options, fetch_search_page, get_search_matches, index_done,
    search_trace, session_created, slice_options, string_options, task_failure, task_panic,
    GetSearchMatchesRequest, SearchRequest,
};
use trace_tools::engine::{SessionHandle, TraceEngine};
use trace_tools::requests::{AnalyzeCryptoRequest, OpenTraceRequest};
use trace_tools::tools::crypto::{
    context_window, crypto_response, kept_scan, CryptoMatch, CryptoScanResult,
};
use trace_tools::tools::open::{after_build, after_create, open_response, OpenStep};

fn info(format: Option<TraceFormat>) -> SessionInfo {
    SessionInfo {
        session_id: "s1".to_string(),
        file_path: "/tmp/t.log".to_string(),
        file_size: 77,
        total_lines: 5,
        index_ready: true,
        building: false,
        has_slice_result: false,
        trace_format: format,
    }
}

fn line(seq: u32) -> TraceLine {
    TraceLine {
        seq,
        address: "0x1".to_string(),
        so_offset: "".to_string(),
        so_name: Some("libx.so".to_string()),
        disasm: "nop".to_string(),
        changes: "".to_string(),
        reg_before: "".to_string(),
        mem_rw: None,
        mem_addr: None,
        mem_size: None,
        raw: "".to_string(),
        call_info: None,
    }
}

fn root() -> CallTreeNodeDto {
    CallTreeNodeDto {
        id: 0,
        func_addr: "0xabc".to_string(),
        func_name: None,
        entry_seq: 0,
        exit_seq: 1,
        parent_id: None,
        children_ids: vec![],
        line_count: 2,
    }
}

fn built() -> BuildResult {
    BuildResult { total_lines: 9, has_string_index: true, from_cache: false }
}

fn open_request() -> OpenTraceRequest {
    OpenTraceRequest { file_path: "/tmp/t.log".to_string(), force_rebuild: true, skip_strings: false }
}

#[test]
fn opening_builds_the_index() {
    match after_create(&open_request(), Ok(info(None))) {
        Ok((s, o)) => {
            assert_eq!(s.session_id, "s1");
            assert!(o.force_rebuild && !o.skip_strings);
        }
        Err(e) => panic!("{}", e),
    }
    assert!(matches!(after_create(&open_request(), Err("gone".to_string())), Err(e)
        if e == "Failed to open trace: gone"));
}

#[test]
fn a_failed_index_closes_the_session() {
    assert!(matches!(after_build(&info(None), Ok(built())), OpenStep::Answer(b) if b.total_lines == 9));
    assert!(matches!(after_build(&info(None), Err("full".to_string())), OpenStep::CloseAndFail(id, e)
        if id == "s1" && e == "Failed to build index: full"));
}

#[test]
fn an_open_trace_is_described() {
    let r = open_response(
        &info(None),
        &built(),
        &Some(vec![line(0)]),
        &Some(vec![root()]),
        &Some(info(Some(TraceFormat::Gumtrace))),
        Some(3),
    );
    assert_eq!((r.session_id.as_str(), r.file_path.as_str(), r.file_size), ("s1", "/tmp/t.log", 77));
    assert_eq!((r.total_lines, r.has_string_index, r.from_cache), (9, true, false));
    assert_eq!(r.module_name.as_deref(), Some("libx.so"));
    assert_eq!(r.entry_address.as_deref(), Some("0xabc"));
    assert_eq!(r.trace_format.as_deref(), Some("Gumtrace"));
    assert_eq!(r.function_count, Some(3));
    let r = open_response(&info(None), &built(), &None, &None, &Some(info(Some(TraceFormat::Unidbg))), None);
    assert_eq!(r.trace_format.as_deref(), Some("Unidbg"));
    assert!(r.module_name.is_none() && r.entry_address.is_none() && r.function_count.is_none());
    let r = open_response(&info(None), &built(), &Some(vec![]), &Some(vec![]), &Some(info(None)), None);
    assert!(r.module_name.is_none() && r.entry_address.is_none() && r.trace_format.is_none());
}

fn detection(seq: u32) -> CryptoMatch {
    CryptoMatch {
        algorithm: "AES".to_string(),
        magic_hex: "0x63".to_string(),
        seq,
        address: "0x1".to_string(),
        disasm: "ldr".to_string(),
    }
}

fn scan() -> CryptoScanResult {
    CryptoScanResult {
        matches: vec![detection(4), detection(9)],
        algorithms_found: vec!["AES".to_string()],
        total_lines_scanned: 100,
    }
}

#[test]
fn a_window_round_a_detection() {
    let req = |context_lines: u32| AnalyzeCryptoRequest { session_id: None, context_lines };
    assert_eq!(context_window(&req(2), &detection(4)), vec![2, 3, 4, 5, 6]);
    assert_eq!(context_window(&req(0), &detection(4)), vec![4]);
    assert_eq!(context_window(&req(3), &detection(1)), vec![0, 1, 2, 3, 4]);
    assert_eq!(context_window(&req(2), &detection(u32::MAX)), vec![u32::MAX - 2, u32::MAX - 1, u32::MAX]);
    assert_eq!(context_window(&req(99), &detection(100)).len(), 21);
}

#[test]
fn a_kept_scan_is_taken() {
    assert!(matches!(kept_scan(Ok(Some(scan()))), Some(s) if s.matches.len() == 2));
    assert!(kept_scan(Ok(None)).is_none());
    assert!(kept_scan(Err("x".to_string())).is_none());
}

#[test]
fn detections_are_shown_with_their_lines() {
    let r = crypto_response(scan(), &vec![vec![line(3), line(4)], vec![]]);
    assert_eq!(r.algorithms_found, vec!["AES".to_string()]);
    assert_eq!((r.match_count, r.matches.len(), r.total_lines_scanned), (2, 2, 100));
    let d = &r.matches[0];
    assert_eq!((d.algorithm.as_str(), d.magic_hex.as_str(), d.seq), ("AES", "0x63", 4));
    assert_eq!((d.address.as_str(), d.disasm.as_str()), ("0x1", "ldr"));
    assert_eq!((d.context[0].line.seq, d.context[0].is_match), (3, false));
    assert_eq!((d.context[1].line.seq, d.context[1].is_match), (4, true));
    assert_eq!(r.matches[1].context.len(), 0);
    assert_eq!(
        r.hint,
        "Use taint_analysis with 'reg:X0@<seq>' on a match's seq to trace the key/data source."
    );
}

#[test]
fn options_of_commands() {
    let o = build_options(Some(true), None);
    assert!(o.force_rebuild && !o.skip_strings);
    let o = build_options(Some(false), Some(true));
    assert!(!o.force_rebuild && o.skip_strings);
    let o = slice_options(Some(1), None, None);
    assert_eq!((o.start_seq, o.end_seq, o.data_only), (Some(1), None, false));
    assert!(slice_options(None, None, Some(true)).data_only);
    let o = dep_tree_options(None, Some(5));
    assert_eq!((o.data_only, o.max_nodes), (false, Some(5)));
    let o = string_options(1, 2, 3, Some("k".to_string()));
    assert_eq!((o.min_len, o.offset, o.limit, o.search.as_deref()), (1, 2, 3, Some("k")));
}

#[test]
fn what_commands_say() {
    assert_eq!(task_failure("x"), "Task execution failed: x");
    assert_eq!(task_panic("x"), "Task panicked: x");
    let c = session_created(info(None));
    assert_eq!((c.session_id.as_str(), c.total_lines, c.file_size), ("s1", 5, 77));
    let (d, answer) = index_done("s1", Ok(Ok(built())));
    assert_eq!(answer, Ok(()));
    assert_eq!((d.session_id.as_str(), d.total_lines, d.has_string_index), ("s1", Some(9), Some(true)));
    assert!(d.error.is_none());
    let (d, answer) = index_done("s1", Ok(Err("full".to_string())));
    assert_eq!(answer, Err("full".to_string()));
    assert_eq!((d.total_lines, d.has_string_index, d.error.as_deref()), (None, None, Some("full")));
    let (d, answer) = index_done("s1", Err("panic".to_string()));
    assert_eq!(answer, Err("Task execution failed: panic".to_string()));
    assert_eq!((d.session_id.as_str(), d.total_lines, d.has_string_index), ("s1", None, None));
    assert_eq!(d.error.as_deref(), Some("Task execution failed: panic"));
}

#[test]
fn searching_by_command() {
    let data = b"bl a\nnop\nBL b".to_vec();
    let mut session = SessionHandle::new("s1".to_string(), data, TraceFormat::Unidbg);
    session.index(TraceFormat::Unidbg, HashMap::new(), HashMap::new(), vec![]);
    let mut engine = TraceEngine::new();
    engine.open_session(session);
    let mut request = SearchRequest {
        query: "bl".to_string(),
        max_results: None,
        case_sensitive: false,
        use_regex: false,
        fuzzy: false,
    };
    match search_trace(&mut engine, "s1", &request, 4) {
        Ok(r) => assert_eq!((r.match_seqs, r.total_matches), (vec![0, 2], 2)),
        Err(e) => panic!("{}", e),
    }
    match fetch_search_page(&engine, "s1", 1, 5) {
        Ok(p) => assert_eq!((p.generation, p.seqs), (1, vec![2])),
        Err(e) => panic!("{}", e),
    }
    request.fuzzy = true;
    request.query = "b bl".to_string();
    request.max_results = Some(1);
    match search_trace(&mut engine, "s1", &request, 4) {
        Ok(r) => assert_eq!((r.match_seqs, r.total_matches, r.truncated), (vec![0], 2, true)),
        Err(e) => panic!("{}", e),
    }
    let show = GetSearchMatchesRequest {
        seqs: vec![2],
        query: "bl".to_string(),
        case_sensitive: false,
        use_regex: false,
        fuzzy: false,
    };
    let parse = |_: TraceFormat, seq: u32, bytes: &[u8]| {
        if bytes == b"BL b" { Some(line(seq)) } else { None }
    };
    match get_search_matches(&engine, "s1", &show, &parse) {
        Ok(m) => assert_eq!((m.len(), m[0].seq), (1, 2)),
        Err(e) => panic!("{}", e),
    }
    assert!(matches!(get_search_matches(&engine, "zz", &show, &parse), Err(e)
        if e == "Session not found: zz"));
    assert!(matches!(fetch_search_page(&engine, "zz", 0, 1), Err(e) if e == "Session not found: zz"));
    assert!(matches!(search_trace(&mut engine, "zz", &request, 1), Err(e) if e == "Session not found: zz"));
}
