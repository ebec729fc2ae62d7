use trace_tools::api_types::{
    CallTreeNodeDto, FunctionCallEntry, FunctionCallOccurrence, FunctionCallsResult,
};
use trace_tools::requests::{AnalyzeFunctionRequest, GetCallTreeRequest};
use trace_tools::tools::functions::{
    call_lines, find_functions, function_detail, function_query, list_functions, read_arguments,
    FunctionQuery, Registers,
};
use trace_tools::tools::tree::{collect_tree_to_depth, get_call_tree};

fn node(id: u32, entry_seq: u32, exit_seq: u32) -> CallTreeNodeDto {
    CallTreeNodeDto {
        id,
        func_addr: format!("0x{:x}", id),
        func_name: if id == 0 { None } else { Some(format!("f{}", id)) },
        entry_seq,
        exit_seq,
        parent_id: None,
        children_ids: vec![],
        line_count: 10 * id,
    }
}

/// 0 calls 1 and 2; 1 calls 3 and 4; 2 calls 5; 3 calls 6; 5 cannot be read; there is no 9.
fn fetch(id: u32) -> Result<Vec<CallTreeNodeDto>, String> {
    let below: &[u32] = match id {
        0 => &[1, 2],
        1 => &[3, 4],
        2 => &[5],
        3 => &[6],
        4 | 6 => &[],
        9 => return Ok(vec![]),
        _ => return Err(format!("cannot read {}", id)),
    };
    let mut nodes = vec![node(id, 0, 1)];
    nodes.extend(below.iter().map(|&b| node(b, 0, 1)));
    Ok(nodes)
}

fn ids(id: u32, depth: u32, max: u32) -> Result<Vec<u32>, String> {
    collect_tree_to_depth(&fetch, id, depth, max).map(|ns| ns.iter().map(|n| n.id).collect())
}

#[test]
fn one_level_is_the_node_and_its_callees() {
    assert_eq!(ids(0, 1, 500), Ok(vec![0, 1, 2]));
    assert_eq!(ids(0, 0, 500), Ok(vec![0, 1, 2]));
    assert_eq!(ids(4, 1, 500), Ok(vec![4]));
    assert_eq!(ids(9, 1, 500), Ok(vec![]));
}

#[test]
fn deeper_levels_come_in_order() {
    assert_eq!(ids(0, 2, 500), Ok(vec![0, 1, 3, 4, 2, 5]));
    assert_eq!(ids(1, 3, 500), Ok(vec![1, 3, 6, 4]));
}

#[test]
fn the_limit_cuts_the_tree_off() {
    assert_eq!(ids(0, 1, 2), Ok(vec![0, 1]));
    assert_eq!(ids(0, 2, 4), Ok(vec![0, 1, 3, 4]));
    assert_eq!(ids(0, 2, 3), Ok(vec![0, 1, 3]));
    assert_eq!(ids(0, 2, 1), Ok(vec![0]));
    assert_eq!(ids(0, 1, 0), Ok(vec![0]));
    assert_eq!(ids(0, 2, 0), Ok(vec![0]));
}

#[test]
fn a_cut_tree_is_a_beginning_of_the_whole_one() {
    let whole = ids(1, 3, 500).unwrap();
    for max in 1..6 {
        let n = whole.len().min(max as usize);
        assert_eq!(ids(1, 3, max).unwrap(), whole[..n].to_vec());
    }
}

#[test]
fn the_first_error_ends_the_walk() {
    assert_eq!(ids(0, 3, 500), Err("cannot read 5".to_string()));
    assert_eq!(ids(0, 3, 5), Ok(vec![0, 1, 3, 6, 4]));
    assert_eq!(ids(7, 1, 500), Err("cannot read 7".to_string()));
}

#[test]
fn the_tree_as_answered() {
    let req = |depth: u32| GetCallTreeRequest { session_id: None, node_id: 1, depth };
    match get_call_tree(&fetch, &req(99), Some(7)) {
        Ok(r) => {
            assert_eq!((r.nodes.len(), r.count, r.total_node_count, r.depth), (4, 4, 7, 3));
            assert_eq!(
                r.hint,
                "Use analyze_function with node_id for detailed analysis including entry arguments."
            );
        }
        Err(e) => panic!("{}", e),
    }
    match get_call_tree(&fetch, &req(0), None) {
        Ok(r) => assert_eq!((r.count, r.total_node_count, r.depth), (3, 0, 1)),
        Err(e) => panic!("{}", e),
    }
}

fn request(node_id: Option<u32>, func_name: Option<&str>) -> AnalyzeFunctionRequest {
    AnalyzeFunctionRequest {
        session_id: None,
        node_id,
        func_name: func_name.map(|s| s.to_string()),
        offset: 0,
        limit: 30,
    }
}

#[test]
fn three_ways_to_ask_for_functions() {
    assert!(matches!(function_query(&request(Some(3), Some("f"))), FunctionQuery::Node(3)));
    assert!(matches!(function_query(&request(None, Some("f"))), FunctionQuery::Name(n) if n == "f"));
    assert!(matches!(function_query(&request(None, None)), FunctionQuery::List));
}

fn pairs(list: &[(&str, &str)]) -> Vec<(String, String)> {
    list.iter().map(|(n, v)| (n.to_string(), v.to_string())).collect()
}

fn regs(list: &[(&str, &str)]) -> Registers {
    let mut r = Registers::new();
    for (n, v) in pairs(list) {
        r.set(n, v);
    }
    r
}

#[test]
fn registers_have_one_value_each() {
    let mut r = regs(&[("X0", "1"), ("X1", "2"), ("X0", "3")]);
    assert_eq!(r.get("X0").as_deref(), Some("3"));
    assert_eq!(r.get("X1").as_deref(), Some("2"));
    assert!(r.get("X2").is_none());
    r.set("X2".to_string(), "4".to_string());
    assert_eq!(r.get("X2").as_deref(), Some("4"));
}

#[test]
fn arguments_are_the_first_eight_registers() {
    let r = regs(&[("X7", "7"), ("X8", "8"), ("X0", "0"), ("x1", "1"), ("X3", "3")]);
    assert_eq!(read_arguments(&r), pairs(&[("X0", "0"), ("X3", "3"), ("X7", "7")]));
    assert_eq!(read_arguments(&Registers::new()), vec![]);
}

#[test]
fn a_call_in_detail() {
    let nodes = vec![node(4, 10, 20), node(5, 11, 12), node(6, 13, 14)];
    match call_lines(4, &nodes) {
        Ok(l) => assert_eq!((l.entry, l.exit), (10, Some(20))),
        Err(e) => panic!("{}", e),
    }
    let entry = regs(&[("X0", "0x1"), ("X1", "0x2")]);
    let exit = Some(regs(&[("X1", "0x9"), ("X0", "0x8")]));
    let d = match function_detail(4, &nodes, &entry, &exit) {
        Ok(d) => d,
        Err(e) => panic!("{}", e),
    };
    assert_eq!((d.node_id, d.entry_seq, d.exit_seq, d.line_count), (4, 10, 20, 40));
    assert_eq!((d.func_name.as_deref(), d.func_addr.as_str()), (Some("f4"), "0x4"));
    assert_eq!(d.args, pairs(&[("X0", "0x1"), ("X1", "0x2")]));
    assert_eq!(d.return_value.as_deref(), Some("0x8"));
    assert_eq!(d.sub_call_count, 2);
    assert_eq!((d.sub_calls[0].node_id, d.sub_calls[1].node_id), (5, 6));
    assert_eq!((d.sub_calls[1].entry_seq, d.sub_calls[1].exit_seq, d.sub_calls[1].line_count), (13, 14, 60));
}

#[test]
fn a_call_that_is_not_left_returns_nothing() {
    let nodes = vec![node(4, 10, 10)];
    assert!(matches!(call_lines(4, &nodes), Ok(l) if l.exit.is_none()));
    let exit = Some(regs(&[("X0", "0x8")]));
    assert!(matches!(function_detail(4, &nodes, &Registers::new(), &exit), Ok(d)
        if d.return_value.is_none() && d.args.is_empty() && d.sub_calls.is_empty()));
    let nodes = vec![node(4, 10, 20)];
    assert!(matches!(function_detail(4, &nodes, &Registers::new(), &None), Ok(d) if d.return_value.is_none()));
}

#[test]
fn a_missing_node() {
    assert!(matches!(call_lines(12, &vec![]), Err(e) if e == "Node 12 not found"));
    assert!(matches!(function_detail(12, &vec![], &Registers::new(), &None), Err(e) if e == "Node 12 not found"));
}

fn function(name: &str, calls: u32) -> FunctionCallEntry {
    FunctionCallEntry {
        func_name: name.to_string(),
        is_jni: name == "JNI",
        occurrences: (0..calls)
            .map(|i| FunctionCallOccurrence { seq: i, summary: format!("call {}", i) })
            .collect(),
    }
}

fn calls() -> FunctionCallsResult {
    FunctionCallsResult {
        functions: vec![
            function("MemCpy", 51),
            function("strlen", 50),
            function("wmemcpy_chk", 1),
            function("ÄMEM", 0),
        ],
        total_calls: 102,
    }
}

#[test]
fn functions_by_name() {
    for query in ["memcpy", "MEMCPY", "MemC"] {
        let r = find_functions(query, calls());
        assert_eq!(r.query, query);
        assert_eq!((r.matched_functions, r.functions.len()), (2, 2));
        let f = &r.functions[0];
        assert_eq!((f.func_name.as_str(), f.call_count, f.is_jni), ("MemCpy", 51, false));
        assert_eq!((f.occurrences.len(), f.occurrences_truncated), (50, true));
        assert_eq!((f.occurrences[49].seq, f.occurrences[49].summary.as_str()), (49, "call 49"));
        assert!(!r.functions[1].occurrences_truncated);
        assert_eq!(
            r.hint,
            "Use analyze_function with node_id from get_call_tree to inspect a specific call's arguments and return value."
        );
    }
    assert!(!find_functions("strlen", calls()).functions[0].occurrences_truncated);
    assert_eq!(find_functions("äm", calls()).functions[0].func_name, "ÄMEM");
    assert_eq!(find_functions("", calls()).functions.len(), 4);
}

#[test]
fn no_function_by_that_name() {
    let r = find_functions("nope", calls());
    assert_eq!((r.matched_functions, r.functions.len()), (0, 0));
    assert_eq!(
        r.hint,
        "No functions matched. Try a broader search term or use analyze_function with no arguments to list all functions."
    );
}

#[test]
fn functions_page_by_page() {
    let mut req = request(None, None);
    req.limit = 3;
    let r = list_functions(&req, &calls());
    assert_eq!((r.functions.len(), r.total, r.total_calls, r.offset, r.has_more), (3, 4, 102, 0, true));
    assert_eq!((r.functions[0].func_name.as_str(), r.functions[0].call_count), ("MemCpy", 51));
    assert_eq!(
        r.hint,
        "Use analyze_function with func_name to search, or node_id for detailed analysis with entry arguments."
    );
    req.offset = 3;
    let r = list_functions(&req, &calls());
    assert_eq!((r.functions.len(), r.has_more), (1, false));
    assert_eq!(r.functions[0].func_name, "ÄMEM");
    req.offset = u32::MAX;
    let r = list_functions(&req, &calls());
    assert_eq!((r.functions.len(), r.has_more), (0, false));
    let many = FunctionCallsResult {
        functions: (0..150).map(|i| function(&format!("f{}", i), 0)).collect(),
        total_calls: 0,
    };
    req.offset = 0;
    req.limit = 1000;
    assert_eq!(list_functions(&req, &many).functions.len(), 100);
}
