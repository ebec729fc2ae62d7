//! Choosing a session, and showing lines, memory and strings.

use vstd::prelude::*;
use vstd::string::*;

use crate::api_types::{clone_text, SessionInfo, StringQueryOptions, StringRecordDto, StringsResult, TraceLine};
use crate::ranges::{hex_addr, parse_hex_addr};
use crate::requests::{GetMemoryRequest, GetStringsRequest, GetTraceLinesRequest};
use crate::scan::count_between;
use crate::text::{decimal, decimal_text, numeral};
use crate::tools::lines::{format_lines, shown_line, shown_lines, ShownLine};

verus! {

/// How many lines one request shows at most.
pub const MAX_LINES: u32 = 100;

/// The smaller of two numbers.
pub open spec fn min_of(a: int, b: int) -> int {
    if a < b {
        a
    } else {
        b
    }
}

/// The smaller of two numbers.
pub fn min_u32(a: u32, b: u32) -> (r: u32)
    ensures
        r == min_of(a as int, b as int),
{
    if a < b {
        a
    } else {
        b
    }
}

/// The session that a request means: the one it names, else the only one there is.
pub open spec fn chosen_session(session_id: Option<String>, sessions: Seq<SessionInfo>) -> Result<
    Seq<char>,
    Seq<char>,
> {
    match session_id {
        Some(id) => Ok(id@),
        None => if sessions.len() == 0 {
            Err("No active session. Call open_trace first."@)
        } else if sessions.len() == 1 {
            Ok(sessions[0].session_id@)
        } else {
            Err(
                "Multiple sessions active ("@ + decimal(sessions.len())
                    + "). Please specify session_id. Use list_sessions to see all sessions."@,
            )
        },
    }
}

/// Implicit session resolution: auto-resolve when only one session is open
pub fn resolve_session(session_id: Option<String>, sessions: &Vec<SessionInfo>) -> (r: Result<
    String,
    String,
>)
    ensures
        match r {
            Ok(id) => chosen_session(session_id, sessions@) == Ok::<Seq<char>, Seq<char>>(id@),
            Err(e) => chosen_session(session_id, sessions@) == Err::<Seq<char>, Seq<char>>(e@),
        },
{
    match session_id {
        Some(id) => Ok(id),
        None => {
            let n: usize = sessions.len();
            if n == 0 {
                Err("No active session. Call open_trace first.".to_owned())
            } else if n == 1 {
                Ok(sessions[0].session_id.clone())
            } else {
                let mut m = "Multiple sessions active (".to_owned();
                m.append(decimal_text(n as u64).as_str());
                m.append("). Please specify session_id. Use list_sessions to see all sessions.");
                Err(m)
            }
        },
    }
}

/// The numbers from `lo` to below `hi`.
pub open spec fn numbers(lo: int, hi: int) -> Seq<u32> {
    Seq::new(count_between(lo, hi), |i: int| (lo + i) as u32)
}

/// The numbers from `lo` to below `hi`.
pub fn number_range(lo: u32, hi: u32) -> (r: Vec<u32>)
    ensures
        r@ == numbers(lo as int, hi as int),
{
    let mut r: Vec<u32> = Vec::new();
    let mut i: u32 = lo;
    while i < hi
        invariant
            lo <= i,
            i <= hi || i == lo,
            r@ == numbers(lo as int, i as int),
        decreases hi - i,
    {
        r.push(i);
        i = i + 1;
        assert(r@ =~= numbers(lo as int, i as int));
    }
    r
}

/// `a + b`, or the greatest number where that is more.
pub fn add_up_to_max(a: u32, b: u32) -> (r: u32)
    ensures
        r == min_of(a + b, u32::MAX as int),
{
    if b < u32::MAX - a {
        a + b
    } else {
        u32::MAX
    }
}

/// `a - b`, or zero where `b` is more.
pub fn subtract_to_zero(a: u32, b: u32) -> (r: u32)
    ensures
        r == if b < a {
            a - b
        } else {
            0
        },
{
    if b < a {
        a - b
    } else {
        0
    }
}

/// Which lines a request asks for: how many, `MAX_LINES` at most, and their numbers.
pub fn trace_lines_query(req: &GetTraceLinesRequest) -> (r: (u32, Vec<u32>))
    ensures
        r.0 == min_of(req.count as int, MAX_LINES as int),
        r.1@ == numbers(
            req.start_seq as int,
            min_of(req.start_seq + r.0, u32::MAX as int),
        ),
{
    let count: u32 = min_u32(req.count, MAX_LINES);
    (count, number_range(req.start_seq, add_up_to_max(req.start_seq, count)))
}

/// A request for lines is given 100 at most, from the one it named on, each the one after the
/// one before; up to that limit as many as it asked for, as long as their numbers stay below the
/// greatest `u32`.
pub proof fn law_lines_are_consecutive(req: GetTraceLinesRequest)
    ensures
        ({
            let count = min_of(req.count as int, MAX_LINES as int);
            let seqs = numbers(
                req.start_seq as int,
                min_of(req.start_seq + count, u32::MAX as int),
            );
            &&& seqs.len() <= 100
            &&& req.start_seq + count <= u32::MAX ==> seqs.len() == count
            &&& forall|i: int| 0 <= i < seqs.len() ==> #[trigger] seqs[i] == req.start_seq + i
        }),
{
}

/// The answer to a request for lines.
pub struct TraceLinesResponse {
    pub lines: Vec<ShownLine>,
    pub count: usize,
    pub start_seq: u32,
    pub requested: u32,
}

/// Answers a request for lines.
pub fn trace_lines_response(req: &GetTraceLinesRequest, requested: u32, lines: &Vec<TraceLine>) -> (r:
    TraceLinesResponse)
    ensures
        r.lines@ == shown_lines(lines@, req.full),
        r.count == lines@.len(),
        r.start_seq == req.start_seq,
        r.requested == requested,
{
    TraceLinesResponse {
        lines: format_lines(lines.as_slice(), req.full),
        count: lines.len(),
        start_seq: req.start_seq,
        requested,
    }
}

/// Which bytes a request asks for, 256 at most; the line number is absent where the request
/// means the last line.
pub struct MemoryQuery {
    pub addr: u64,
    pub length: u32,
    pub seq: Option<u32>,
}

/// Reads which bytes a request asks for.
pub fn memory_query(req: &GetMemoryRequest) -> (r: Result<MemoryQuery, String>)
    ensures
        match r {
            Ok(q) => {
                &&& hex_addr(req.address@) == Ok::<u64, Seq<char>>(q.addr)
                &&& q.length == min_of(req.length as int, 256)
                &&& q.seq == req.seq
            },
            Err(e) => hex_addr(req.address@) == Err::<u64, Seq<char>>(e@),
        },
{
    match parse_hex_addr(req.address.as_str()) {
        Ok(addr) => Ok(MemoryQuery { addr, length: min_u32(req.length, 256), seq: req.seq }),
        Err(e) => Err(e),
    }
}

/// The line number to read memory at in a trace of `total_lines` lines.
pub fn memory_seq(seq: Option<u32>, total_lines: u32) -> (r: u32)
    ensures
        r == match seq {
            Some(s) => s as int,
            None => if total_lines > 0 {
                total_lines - 1
            } else {
                0
            },
        },
{
    match seq {
        Some(s) => s,
        None => subtract_to_zero(total_lines, 1),
    }
}

/// Which strings a request asks for, 200 at most.
pub fn strings_query(req: &GetStringsRequest) -> (r: StringQueryOptions)
    ensures
        r == (StringQueryOptions {
            min_len: req.min_len,
            offset: req.offset,
            limit: min_of(req.limit as int, 200) as u32,
            search: req.search,
        }),
{
    StringQueryOptions {
        min_len: req.min_len,
        offset: req.offset,
        limit: min_u32(req.limit, 200),
        search: clone_text(&req.search),
    }
}

/// The answer to a request for strings.
pub struct StringsResponse {
    pub strings: Vec<StringRecordDto>,
    pub total: u32,
    pub offset: u32,
    pub has_more: bool,
    pub hint: Option<String>,
}

/// Answers a request for strings.
pub fn strings_response(req: &GetStringsRequest, result: StringsResult) -> (r: StringsResponse)
    requires
        result.strings@.len() <= u32::MAX,
    ensures
        r.strings@ == result.strings@,
        r.total == result.total,
        r.offset == req.offset,
        r.has_more == (req.offset + result.strings@.len() < result.total),
        r.hint is Some == (result.strings@.len() > 0),
        r.hint matches Some(h) ==> h@
            == "Use search_instructions with the string's memory address to find which instructions access it."@,
{
    let n: usize = result.strings.len();
    let hint: Option<String> = if n > 0 {
        Some(
            "Use search_instructions with the string's memory address to find which instructions access it.".to_owned(),
        )
    } else {
        None
    };
    StringsResponse {
        has_more: (req.offset as u64 + n as u64) < result.total as u64,
        total: result.total,
        offset: req.offset,
        strings: result.strings,
        hint,
    }
}

/// A request means the session that it names, whatever is open; where it names none, the only open
/// one; and where none or several are open, it is told so.
pub proof fn law_which_session_is_meant(id: String, sessions: Seq<SessionInfo>)
    ensures
        chosen_session(Some(id), sessions) == Ok::<Seq<char>, Seq<char>>(id@),
        chosen_session(None, sessions) is Ok <==> sessions.len() == 1,
        sessions.len() == 1 ==> chosen_session(None, sessions) == Ok::<Seq<char>, Seq<char>>(
            sessions[0].session_id@,
        ),
        sessions.len() == 0 ==> chosen_session(None, sessions) == Err::<Seq<char>, Seq<char>>(
            "No active session. Call open_trace first."@,
        ),
        sessions.len() > 1 ==> chosen_session(None, sessions) == Err::<Seq<char>, Seq<char>>(
            "Multiple sessions active ("@ + numeral(sessions.len(), 10)
                + "). Please specify session_id. Use list_sessions to see all sessions."@,
        ),
{
}

/// The smaller of two numbers is one of them and not more than either. The numbers from one to
/// below another are each once and in order.
pub proof fn law_numbers_in_order(a: int, b: int)
    ensures
        min_of(a, b) <= a,
        min_of(a, b) <= b,
        min_of(a, b) == a || min_of(a, b) == b,
        numbers(a, b).len() == if a < b {
            b - a
        } else {
            0
        },
        0 <= a && b <= u32::MAX + 1 ==> forall|i: int|
            0 <= i < numbers(a, b).len() ==> #[trigger] numbers(a, b)[i] == a + i,
{
}

/// A request for lines is given as many as it asks for, 100 at most, as long as their numbers stay
/// below the greatest `u32`.
pub proof fn law_as_many_lines_as_asked(req: GetTraceLinesRequest, x: u32)
    ensures
        ({
            let count = min_of(req.count as int, MAX_LINES as int);
            let seqs = numbers(
                req.start_seq as int,
                min_of(req.start_seq + count, u32::MAX as int),
            );
            &&& count == if req.count < 100 {
                req.count as int
            } else {
                100
            }
            &&& seqs.contains(x) <==> req.start_seq <= x && x < req.start_seq + req.count && x
                < req.start_seq + 100 && x < u32::MAX
        }),
{
    let count = min_of(req.count as int, MAX_LINES as int);
    let seqs = numbers(req.start_seq as int, min_of(req.start_seq + count, u32::MAX as int));
    if req.start_seq <= x && x < req.start_seq + count && x < u32::MAX {
        assert(seqs[x - req.start_seq] == x);
    }
}

/// A request for lines asks for the lines from the one it names on, as many as it says, 100 at most;
/// the answer shows each loaded line, in order, and tells how many there are.
pub proof fn law_line_requests(
    req: GetTraceLinesRequest,
    query: (u32, Vec<u32>),
    lines: Vec<TraceLine>,
    r: TraceLinesResponse,
    x: u32,
)
    requires
        call_ensures(trace_lines_query, (&req,), query),
        call_ensures(trace_lines_response, (&req, query.0, &lines), r),
    ensures
        query.0 <= 100 && query.0 <= req.count && (query.0 == 100 || query.0 == req.count),
        query.1@.contains(x) <==> req.start_seq <= x && x < req.start_seq + query.0 && x < u32::MAX,
        forall|i: int, j: int|
            0 <= i && i < j && j < query.1@.len() ==> #[trigger] query.1@[i] < #[trigger] query.1@[j],
        r.count == lines@.len(),
        r.lines@.len() == lines@.len(),
        forall|i: int|
            0 <= i < lines@.len() ==> #[trigger] r.lines@[i] == shown_line(lines@[i], req.full),
        r.start_seq == req.start_seq,
        r.requested == query.0,
{
    law_as_many_lines_as_asked(req, x);
}

/// A request for memory asks for the bytes at the address that it writes, as many as it says, 256
/// at most; it cannot be met exactly if that is no address. Memory is read at the line it names,
/// else at the last line of the trace.
pub proof fn law_memory_requests(
    req: GetMemoryRequest,
    query: Result<MemoryQuery, String>,
    total_lines: u32,
    seq: u32,
)
    requires
        call_ensures(memory_query, (&req,), query),
        call_ensures(memory_seq, (req.seq, total_lines), seq),
    ensures
        query is Ok <==> hex_addr(req.address@) is Ok,
        query matches Ok(q) ==> {
            &&& hex_addr(req.address@) == Ok::<u64, Seq<char>>(q.addr)
            &&& q.length <= 256
            &&& q.length <= req.length
            &&& q.length == 256 || q.length == req.length
            &&& q.seq == req.seq
        },
        query matches Err(e) ==> hex_addr(req.address@) == Err::<u64, Seq<char>>(e@),
        req.seq matches Some(s) ==> seq == s,
        req.seq is None && total_lines > 0 ==> seq + 1 == total_lines,
        req.seq is None && total_lines == 0 ==> seq == 0,
{
}

/// A request for strings asks for those it describes, as many as it says, 200 at most. The answer
/// gives what the engine gave and says that there are more exactly if some lie behind them.
pub proof fn law_string_requests(
    req: GetStringsRequest,
    query: StringQueryOptions,
    result: StringsResult,
    r: StringsResponse,
)
    requires
        call_ensures(strings_query, (&req,), query),
        call_ensures(strings_response, (&req, result), r),
    ensures
        query.min_len == req.min_len,
        query.offset == req.offset,
        query.search == req.search,
        query.limit <= 200 && query.limit <= req.limit && (query.limit == 200 || query.limit
            == req.limit),
        r.strings@ == result.strings@,
        r.total == result.total,
        r.offset == req.offset,
        r.has_more <==> r.offset + r.strings@.len() < r.total,
        r.hint is Some <==> r.strings@.len() > 0,
{
}

} // verus!
