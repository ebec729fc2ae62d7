use std::collections::HashMap;

use trace_tools::api_types::{SearchOptions, TraceFormat, TraceLine};
use trace_tools::engine::{SessionHandle, TraceEngine};
use trace_tools::error::TraceError;
use trace_tools::render::CallAnnotation;

fn session(id: &str, data: &[u8], format: TraceFormat, consumed: Vec<u32>) -> SessionHandle {
    let mut s = SessionHandle::new(id.to_string(), data.to_vec(), format);
    s.index(format, HashMap::new(), HashMap::new(), consumed);
    s
}

fn engine_of(sessions: Vec<SessionHandle>) -> TraceEngine {
    let mut e = TraceEngine::new();
    for s in sessions {
        e.open_session(s);
    }
    e
}

fn plain(id: &str, data: &[u8]) -> SessionHandle {
    session(id, data, TraceFormat::Unidbg, vec![])
}

fn options(max_results: Option<u32>, cache: bool) -> SearchOptions {
    SearchOptions {
        case_sensitive: false,
        use_regex: false,
        fuzzy: false,
        max_results,
        cache,
        seq_offset: None,
    }
}

fn line(seq: u32, disasm: &str) -> TraceLine {
    TraceLine {
        seq,
        address: "0x1".to_string(),
        so_offset: "".to_string(),
        so_name: None,
        disasm: disasm.to_string(),
        changes: "".to_string(),
        reg_before: "".to_string(),
        mem_rw: None,
        mem_addr: None,
        mem_size: None,
        raw: "".to_string(),
        call_info: None,
    }
}

fn parse(format: TraceFormat, seq: u32, bytes: &[u8]) -> Option<TraceLine> {
    let text = String::from_utf8_lossy(bytes).to_string();
    if text == "mov" {
        None
    } else {
        Some(line(seq, &format!("{:?} {}", format, text)))
    }
}

const TRACE: &[u8] = b"bl 1\nmov\nBL 2\nret";

fn engine() -> TraceEngine {
    engine_of(vec![plain("a", TRACE), plain("b", b"nop")])
}

#[test]
fn unknown_session() {
    let mut e = engine();
    match e.search("zz", "bl", options(None, false), 1) {
        Err(TraceError::SessionNotFound(id)) => assert_eq!(id, "zz"),
        _ => panic!("no error"),
    }
    match e.fetch_search_page("zz", 0, 1) {
        Err(err) => assert_eq!(err.message(), "Session not found: zz"),
        _ => panic!("no error"),
    }
    assert!(matches!(e.get_handle("b"), Ok(1)));
}

#[test]
fn limited_search_is_not_kept() {
    let mut e = engine();
    let r = e.search("a", "bl", options(Some(1), false), 1).unwrap();
    assert_eq!(r.match_seqs, vec![0]);
    assert_eq!((r.total_scanned, r.total_matches, r.truncated), (4, 2, true));
    assert_eq!(e.fetch_search_page("a", 0, 10).unwrap(), (0, vec![]));
    let r = e.search("a", "bl", options(Some(2), false), 1).unwrap();
    assert_eq!((r.match_seqs, r.truncated), (vec![0, 2], false));
}

#[test]
fn kept_search_is_read_back() {
    let mut e = engine();
    let r = e.search("a", "bl", options(None, false), 1).unwrap();
    assert_eq!(r.match_seqs, vec![0, 2]);
    assert!(!r.truncated);
    assert_eq!(e.fetch_search_page("a", 0, 10).unwrap(), (1, vec![0, 2]));
    assert_eq!(e.fetch_search_page("a", 1, 10).unwrap(), (1, vec![2]));
    assert_eq!(e.fetch_search_page("a", 2, 10).unwrap(), (1, vec![]));
    assert_eq!(e.fetch_search_page("a", 9, 10).unwrap(), (1, vec![]));
    assert_eq!(e.fetch_search_page("b", 0, 10).unwrap(), (0, vec![]));
    let r = e.search("a", "mov", options(Some(1), true), 1).unwrap();
    assert_eq!(r.match_seqs, vec![1]);
    assert_eq!(e.fetch_search_page("a", 0, 10).unwrap(), (2, vec![1]));
}

#[test]
fn empty_query_forgets_the_search() {
    let mut e = engine();
    e.search("a", "bl", options(None, false), 1).unwrap();
    let r = e.search("a", "", options(None, false), 1).unwrap();
    assert_eq!(r.match_seqs, vec![]);
    assert_eq!((r.total_scanned, r.total_matches, r.truncated), (0, 0, false));
    assert_eq!(e.fetch_search_page("a", 0, 10).unwrap(), (0, vec![]));
}

#[test]
fn wrong_regex_changes_nothing() {
    let mut e = engine();
    e.search("a", "bl", options(None, false), 1).unwrap();
    match e.search("a", "/(/", options(None, false), 1) {
        Err(TraceError::Internal(t)) => assert!(t.starts_with("正则表达式错误: ")),
        _ => panic!("no error"),
    }
    assert_eq!(e.fetch_search_page("a", 0, 10).unwrap(), (1, vec![0, 2]));
}

#[test]
fn a_trace_without_an_index_has_no_lines() {
    let mut e =
        engine_of(vec![SessionHandle::new("a".to_string(), TRACE.to_vec(), TraceFormat::Unidbg)]);
    let r = e.search("a", "bl", options(Some(5), false), 1).unwrap();
    assert_eq!((r.match_seqs, r.total_scanned, r.total_matches), (vec![], 0, 0));
    match e.get_search_matches("a", "bl", &[0], false, false, false, &parse) {
        Err(err) => assert_eq!(err.message(), "Line index not available"),
        _ => panic!("no error"),
    }
}

#[test]
fn long_traces_give_the_same_on_any_number_of_processors() {
    let data: Vec<u8> = (0..12000u32)
        .map(|i| if i % 2 == 0 { "bl x8\n" } else { "nop\n" })
        .collect::<String>()
        .into_bytes();
    let mut one = engine_of(vec![plain("a", &data)]);
    let mut many = engine_of(vec![plain("a", &data)]);
    let r1 = one.search("a", "BL", options(None, false), 1).unwrap();
    let r8 = many.search("a", "BL", options(None, false), 8).unwrap();
    assert_eq!(r1.match_seqs, r8.match_seqs);
    assert_eq!(r1.match_seqs.len(), 5000);
    assert_eq!((r1.total_matches, r8.total_matches), (6000, 6000));
    assert!(r1.truncated && r8.truncated);
    let all = one.fetch_search_page("a", 0, u32::MAX).unwrap();
    assert_eq!(all, many.fetch_search_page("a", 0, u32::MAX).unwrap());
    assert_eq!((all.0, all.1.len()), (1, 6000));
    let l1 = one.search("a", "BL", options(Some(4500), false), 1).unwrap();
    let l8 = many.search("a", "BL", options(Some(4500), false), 8).unwrap();
    assert_eq!(l1.match_seqs, l8.match_seqs);
    assert_eq!(l1.match_seqs.len(), 4500);
}

#[test]
fn regex_search_over_lines() {
    let mut e = engine();
    let r = e.search("a", "/^bl [0-9]$/", options(None, false), 1).unwrap();
    assert_eq!(r.match_seqs, vec![0]);
}

#[test]
fn pages_join() {
    let data: Vec<u8> = "hit\n".repeat(100).into_bytes();
    let mut e = engine_of(vec![plain("a", &data)]);
    e.search("a", "hit", options(None, false), 1).unwrap();
    let mut joined = e.fetch_search_page("a", 10, 30).unwrap().1;
    joined.extend(e.fetch_search_page("a", 40, 25).unwrap().1);
    assert_eq!(joined, e.fetch_search_page("a", 10, 55).unwrap().1);
    assert_eq!(e.fetch_search_page("a", 0, 100).unwrap().1, (0..100).collect::<Vec<u32>>());
}

#[test]
fn consumed_lines_are_neither_found_nor_shown() {
    let mut e = engine_of(vec![session("a", TRACE, TraceFormat::Unidbg, vec![2])]);
    let r = e.search("a", "bl", options(None, false), 1).unwrap();
    assert_eq!(r.match_seqs, vec![0]);
    let shown = e.get_search_matches("a", "bl", &[2, 3, 0, 9], false, false, false, &parse).unwrap();
    assert_eq!(shown.iter().map(|m| m.seq).collect::<Vec<u32>>(), vec![3, 0]);
    assert_eq!(shown[0].disasm, "Unidbg ret");
    assert_eq!(shown[1].disasm, "Unidbg bl 1");
}

#[test]
fn lines_are_taken_apart_by_the_format_of_the_trace() {
    let e = engine_of(vec![session("a", TRACE, TraceFormat::Gumtrace, vec![])]);
    let shown = e.get_search_matches("a", "bl", &[2], false, false, false, &parse).unwrap();
    assert_eq!(shown[0].disasm, "Gumtrace BL 2");
}

#[test]
fn matches_are_shown_with_their_calls() {
    let mut e = engine();
    let note = CallAnnotation {
        func_name: "f".to_string(),
        is_jni: false,
        summary: "f()".to_string(),
        tooltip: "tip".to_string(),
    };
    e.index_session(
        "a",
        TraceFormat::Unidbg,
        [(0, "secret".to_string())].into_iter().collect(),
        [(0, note)].into_iter().collect(),
        vec![],
    )
    .unwrap();
    let r = e.search("a", "secret", options(None, false), 1).unwrap();
    assert_eq!(r.match_seqs, vec![0]);
    let shown = e.get_search_matches("a", "secret", &[0, 1], false, false, false, &parse).unwrap();
    assert_eq!(shown.len(), 1);
    assert_eq!(shown[0].hidden_content.as_deref(), Some("tip"));
    assert!(shown[0].call_info.is_some());
}

#[test]
fn no_lines_asked_for() {
    let e = engine();
    assert_eq!(e.get_search_matches("zz", "/(/", &[], false, false, false, &parse).unwrap().len(), 0);
    match e.get_search_matches("zz", "bl", &[1], false, false, false, &parse) {
        Err(err) => assert_eq!(err.message(), "Session not found: zz"),
        _ => panic!("no error"),
    }
    match e.get_search_matches("zz", "/(/", &[1], false, false, false, &parse) {
        Err(err) => assert!(err.message().starts_with("正则表达式错误: ")),
        _ => panic!("no error"),
    }
}

#[test]
fn a_greater_limit_only_lengthens() {
    let mut e = engine();
    let less = e.search("a", "bl", options(Some(1), false), 1).unwrap();
    let more = e.search("a", "bl", options(Some(9), false), 1).unwrap();
    assert!(more.match_seqs.starts_with(&less.match_seqs));
    assert_eq!(
        (less.total_matches, less.total_scanned, less.truncated),
        (more.total_matches, more.total_scanned, true)
    );
    assert!(!more.truncated);
}

#[test]
fn a_search_that_is_not_kept_changes_nothing() {
    let mut e = engine();
    e.search("a", "bl", options(None, false), 1).unwrap();
    e.search("a", "mov", options(Some(5), false), 1).unwrap();
    assert!(e.search("zz", "mov", options(None, false), 1).is_err());
    assert_eq!(e.fetch_search_page("a", 0, 10).unwrap(), (1, vec![0, 2]));
}

#[test]
fn pages_give_back_the_whole_search() {
    let data: Vec<u8> = "hit\n".repeat(53).into_bytes();
    let mut e = engine_of(vec![plain("a", &data)]);
    let r = e.search("a", "hit", options(None, true), 3).unwrap();
    let mut all: Vec<u32> = Vec::new();
    let mut offset = 0;
    loop {
        let (generation, page) = e.fetch_search_page("a", offset, 10).unwrap();
        assert_eq!(generation, 1);
        if page.is_empty() {
            break;
        }
        all.extend(page);
        offset += 10;
    }
    assert_eq!(all.len(), r.total_matches as usize);
    assert!(all.windows(2).all(|w| w[0] < w[1]));
    assert!(all.starts_with(&r.match_seqs));
    assert_eq!(e.fetch_search_page("a", 0, 5000).unwrap().1, r.match_seqs);
}

#[test]
fn a_closed_session_is_gone() {
    let mut e = engine();
    e.close_session("a");
    assert!(e.get_handle("a").is_err());
    assert!(matches!(e.get_handle("b"), Ok(0)));
    e.close_session("zz");
    assert!(matches!(e.get_handle("b"), Ok(0)));
}

#[test]
fn only_open_traces_are_indexed() {
    let mut e = engine();
    let r = e.index_session("zz", TraceFormat::Unidbg, HashMap::new(), HashMap::new(), vec![]);
    assert!(matches!(r, Err(TraceError::SessionNotFound(id)) if id == "zz"));
}
