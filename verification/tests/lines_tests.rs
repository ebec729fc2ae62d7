use trace_tools::api_types::{CallInfoDto, SessionInfo, StringQueryOptions, StringRecordDto, StringsResult, TraceLine};
use trace_tools::requests::{
    default_crypto_context, default_depth, default_func_list_limit, default_inline_lines,
    default_line_count, default_mem_length, default_min_str_len, default_strings_limit,
    default_taint_limit, default_true, GetMemoryRequest, GetStringsRequest, GetTraceLinesRequest,
};
use trace_tools::tools::browse::{
    memory_query, memory_seq, resolve_session, strings_query, strings_response, trace_lines_query,
    trace_lines_response,
};
use trace_tools::tools::lines::{
    compact_line, drop_stack_ops, filter_by_addr, format_lines, is_stack_only_change,
    line_in_addr_range, ShownLine,
};

fn line(seq: u32, so_offset: &str, changes: &str) -> TraceLine {
    TraceLine {
        seq,
        address: format!("0x{:x}", seq),
        so_offset: so_offset.to_string(),
        so_name: None,
        disasm: "nop".to_string(),
        changes: changes.to_string(),
        reg_before: "".to_string(),
        mem_rw: None,
        mem_addr: None,
        mem_size: Some(8),
        raw: "raw".to_string(),
        call_info: None,
    }
}

fn info(id: &str) -> SessionInfo {
    SessionInfo {
        session_id: id.to_string(),
        file_path: "/t".to_string(),
        file_size: 1,
        total_lines: 2,
        index_ready: true,
        building: false,
        has_slice_result: false,
        trace_format: None,
    }
}

fn seqs(lines: &[TraceLine]) -> Vec<u32> {
    lines.iter().map(|l| l.seq).collect()
}

#[test]
fn stack_only_changes() {
    assert!(is_stack_only_change("sp=0x10"));
    assert!(is_stack_only_change("sp=0x10 x29=0x20"));
    assert!(is_stack_only_change("fp=1\twsp=2 w29=3"));
    assert!(is_stack_only_change("pushed sp=0x10"));
    assert!(is_stack_only_change("sp=x0=5"));
}

#[test]
fn other_changes() {
    assert!(!is_stack_only_change(""));
    assert!(!is_stack_only_change("   "));
    assert!(!is_stack_only_change("pushed"));
    assert!(!is_stack_only_change("x0=1"));
    assert!(!is_stack_only_change("sp=0x10 x0=1"));
    assert!(!is_stack_only_change("SP=0x10"));
    assert!(!is_stack_only_change("=5"));
}

#[test]
fn stack_operations_are_dropped() {
    let lines = vec![line(1, "", "sp=1"), line(2, "", "x0=1"), line(3, "", ""), line(4, "", "fp=1")];
    assert_eq!(seqs(&drop_stack_ops(lines)), vec![2, 3]);
}

#[test]
fn address_filter_has_both_ends() {
    assert!(line_in_addr_range(&line(0, "0x10", ""), 16, 16));
    assert!(!line_in_addr_range(&line(0, "0x10", ""), 17, 32));
    assert!(!line_in_addr_range(&line(0, "0x10", ""), 1, 15));
    assert!(!line_in_addr_range(&line(0, "", ""), 0, u64::MAX));
    let lines = || vec![line(1, "0x10", ""), line(2, "0x20", ""), line(3, "?", "")];
    assert!(matches!(filter_by_addr(lines(), &None), Ok(k) if seqs(&k) == vec![1, 2, 3]));
    let range = Some("0x10-0x1f".to_string());
    assert!(matches!(filter_by_addr(lines(), &range), Ok(k) if seqs(&k) == vec![1]));
    let range = Some("0x10".to_string());
    assert!(matches!(filter_by_addr(lines(), &range), Err(e)
        if e == "Invalid addr_range format '0x10'. Expected: '0x246F00-0x249800'"));
}

#[test]
fn compact_lines_leave_out_what_is_empty() {
    let mut l = line(5, "", "");
    let c = compact_line(&l);
    assert_eq!((c.seq, c.address.as_str(), c.disasm.as_str()), (5, "0x5", "nop"));
    assert!(c.so_offset.is_none() && c.changes.is_none() && c.func_name.is_none());
    assert!(c.mem_rw.is_none() && c.mem_addr.is_none() && c.so_name.is_none());
    l.so_offset = "0x10".to_string();
    l.changes = "x0=1".to_string();
    l.mem_rw = Some("R".to_string());
    l.mem_addr = Some("0x99".to_string());
    l.so_name = Some("lib".to_string());
    l.call_info = Some(CallInfoDto {
        func_name: "".to_string(),
        is_jni: false,
        summary: "s".to_string(),
        tooltip: "t".to_string(),
    });
    let c = compact_line(&l);
    assert!(c.func_name.is_none());
    assert_eq!(c.so_offset.as_deref(), Some("0x10"));
    assert_eq!(c.changes.as_deref(), Some("x0=1"));
    assert_eq!(c.mem_rw.as_deref(), Some("R"));
    assert_eq!(c.mem_addr.as_deref(), Some("0x99"));
    assert_eq!(c.so_name.as_deref(), Some("lib"));
    if let Some(i) = l.call_info.as_mut() {
        i.func_name = "memcpy".to_string();
    }
    assert_eq!(compact_line(&l).func_name.as_deref(), Some("memcpy"));
}

#[test]
fn lines_are_shown_full_or_compact() {
    let lines = vec![line(1, "", ""), line(2, "", "")];
    let full = format_lines(&lines, true);
    assert_eq!(full.len(), 2);
    assert!(matches!(&full[1], ShownLine::Full(l) if l.seq == 2 && l.raw == "raw" && l.mem_size == Some(8)));
    let compact = format_lines(&lines, false);
    assert!(matches!(&compact[0], ShownLine::Compact(c) if c.seq == 1));
}

#[test]
fn the_only_session_is_meant() {
    assert_eq!(resolve_session(Some("x".to_string()), &vec![]), Ok("x".to_string()));
    assert_eq!(resolve_session(None, &vec![info("a")]), Ok("a".to_string()));
    assert_eq!(
        resolve_session(None, &vec![]),
        Err("No active session. Call open_trace first.".to_string())
    );
    assert_eq!(
        resolve_session(None, &vec![info("a"), info("b")]),
        Err("Multiple sessions active (2). Please specify session_id. \
             Use list_sessions to see all sessions."
            .to_string())
    );
}

fn lines_request(start_seq: u32, count: u32) -> GetTraceLinesRequest {
    GetTraceLinesRequest { session_id: None, start_seq, count, full: false }
}

#[test]
fn lines_are_consecutive() {
    assert_eq!(trace_lines_query(&lines_request(5, 3)), (3, vec![5, 6, 7]));
    assert_eq!(trace_lines_query(&lines_request(5, 0)), (0, vec![]));
    let (count, seqs) = trace_lines_query(&lines_request(0, 101));
    assert_eq!((count, seqs.len(), seqs[99]), (100, 100, 99));
    let (count, seqs) = trace_lines_query(&lines_request(u32::MAX - 2, 100));
    assert_eq!((count, seqs), (100, vec![u32::MAX - 2, u32::MAX - 1]));
}

#[test]
fn lines_answer() {
    let r = trace_lines_response(&lines_request(1, 9), 9, &vec![line(1, "", "")]);
    assert_eq!((r.lines.len(), r.count, r.start_seq, r.requested), (1, 1, 1, 9));
}

#[test]
fn memory_requests() {
    let req = |address: &str, seq: Option<u32>, length: u32| GetMemoryRequest {
        session_id: None,
        address: address.to_string(),
        seq,
        length,
    };
    match memory_query(&req("0x1000", Some(3), 300)) {
        Ok(q) => assert_eq!((q.addr, q.length, q.seq), (0x1000, 256, Some(3))),
        Err(e) => panic!("{}", e),
    }
    match memory_query(&req("oops", None, 1)) {
        Ok(_) => panic!("no error"),
        Err(e) => assert_eq!(e, "Invalid hex address: 'oops'"),
    }
    assert_eq!(memory_seq(Some(3), 100), 3);
    assert_eq!(memory_seq(None, 100), 99);
    assert_eq!(memory_seq(None, 0), 0);
}

fn strings_request(offset: u32, limit: u32) -> GetStringsRequest {
    GetStringsRequest { session_id: None, min_len: 4, search: Some("k".to_string()), offset, limit }
}

#[test]
fn string_requests() {
    let StringQueryOptions { min_len, offset, limit, search } = strings_query(&strings_request(7, 900));
    assert_eq!((min_len, offset, limit, search.as_deref()), (4, 7, 200, Some("k")));
}

#[test]
fn string_answers() {
    let record = || StringRecordDto {
        idx: 0,
        addr: "0x1".to_string(),
        content: "key".to_string(),
        encoding: "utf8".to_string(),
        byte_len: 3,
        seq: 1,
        xref_count: 0,
        rw: "R".to_string(),
    };
    let r = strings_response(&strings_request(1, 10), StringsResult { strings: vec![record()], total: 3 });
    assert_eq!((r.strings.len(), r.total, r.offset, r.has_more), (1, 3, 1, true));
    assert_eq!(
        r.hint.as_deref(),
        Some("Use search_instructions with the string's memory address to find which instructions access it.")
    );
    let r = strings_response(&strings_request(2, 10), StringsResult { strings: vec![record()], total: 3 });
    assert!(!r.has_more);
    let r = strings_response(&strings_request(u32::MAX, 10), StringsResult { strings: vec![], total: 3 });
    assert!(!r.has_more && r.hint.is_none());
}

#[test]
fn defaults_of_requests() {
    assert_eq!(default_line_count(), 20);
    assert_eq!(default_mem_length(), 64);
    assert_eq!(default_taint_limit(), 50);
    assert!(default_true());
    assert_eq!(default_depth(), 1);
    assert_eq!(default_func_list_limit(), 30);
    assert_eq!(default_min_str_len(), 4);
    assert_eq!(default_strings_limit(), 50);
    assert_eq!(default_inline_lines(), 30);
    assert_eq!(default_crypto_context(), 3);
}
