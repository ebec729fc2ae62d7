//! Searching the instructions of a trace.

use vstd::prelude::*;
use vstd::slice::slice_subrange;

use crate::api_types::{SearchOptions, TraceLine};
use crate::engine::{after_search, copy_page, law_first_page_is_a_page, law_kept_search_is_read_back, law_pages_give_back_the_whole, law_search_finds_the_matching_lines, lemma_place_is_there, page_of, pages_joined, search_found, search_scanned, session_place, SessionView, TraceEngine};
use crate::error::{error_text, ErrorView};
use crate::matching::search_mode;
use crate::ranges::{parse_seq_range, seq_range};
use crate::requests::SearchInstructionsRequest;
use crate::scan::{ascending, first_of, lemma_filter_ascending, lemma_filter_ends, lemma_filter_step};
use crate::tools::browse::{min_of, min_u32};
use crate::tools::lines::{after_addr_filter, filter_by_addr, format_lines, shown_line, shown_lines, ShownLine};

verus! {

/// How many results a search gives at most.
pub const MAX_SEARCH: u32 = 200;

/// How many results a search gives where the request does not say.
pub const DEFAULT_SEARCH: u32 = 30;

/// How many results a request is given at most.
pub open spec fn search_max(req: SearchInstructionsRequest) -> int {
    min_of(
        match req.max_results {
            Some(n) => n as int,
            None => DEFAULT_SEARCH as int,
        },
        MAX_SEARCH as int,
    )
}

/// The request wants the search to be kept.
pub open spec fn wants_cache(req: SearchInstructionsRequest) -> bool {
    req.cache == Some(true)
}

/// From which result on the request wants to see them.
pub open spec fn result_offset(req: SearchInstructionsRequest) -> int {
    match req.seq_offset {
        Some(n) => n as int,
        None => 0,
    }
}

/// The request wants more of a search that was kept, not a new one.
pub open spec fn continues_search(req: SearchInstructionsRequest) -> bool {
    wants_cache(req) && result_offset(req) > 0
}

/// How the engine is to search for a request: where only a range of line numbers is wanted, it is
/// asked for all results, so that those outside the range do not use up the limit.
pub open spec fn tool_options(req: SearchInstructionsRequest) -> SearchOptions {
    SearchOptions {
        case_sensitive: req.case_sensitive,
        use_regex: req.use_regex,
        fuzzy: false,
        max_results: Some(
            if req.seq_range is Some {
                u32::MAX
            } else {
                search_max(req) as u32
            },
        ),
        cache: wants_cache(req),
        seq_offset: None,
    }
}

/// All results, how many there are, and how many lines were looked at. Where a kept search is
/// continued these are the results that it kept; the last two are not known again and are zero.
pub open spec fn all_results(
    sessions: Seq<SessionView>,
    session_id: Seq<char>,
    req: SearchInstructionsRequest,
) -> Result<(Seq<u32>, nat, nat), ErrorView> {
    if continues_search(req) {
        match session_place(sessions, session_id) {
            None => Err(ErrorView::SessionNotFound(session_id)),
            Some(i) => Ok((sessions[i].kept, 0, 0)),
        }
    } else {
        match search_found(sessions, session_id, req.query@, tool_options(req)) {
            Err(v) => Err(v),
            Ok(found) => Ok(
                (found, found.len(), search_scanned(sessions, session_id, req.query@)),
            ),
        }
    }
}

/// The sessions after a request was answered.
pub open spec fn after_selection(
    sessions: Seq<SessionView>,
    session_id: Seq<char>,
    req: SearchInstructionsRequest,
) -> Seq<SessionView> {
    if continues_search(req) {
        sessions
    } else {
        after_search(sessions, session_id, req.query@, tool_options(req))
    }
}

/// The results, of those in the range of line numbers, that a request is given.
pub open spec fn selected(inside: Seq<u32>, req: SearchInstructionsRequest) -> Seq<u32> {
    if continues_search(req) {
        page_of(inside, result_offset(req), search_max(req))
    } else {
        first_of(inside, search_max(req))
    }
}

/// The numbers in `seqs` from `start` to `end`.
pub open spec fn within_seq_range(seqs: Seq<u32>, start: u32, end: u32) -> Seq<u32> {
    seqs.filter(|s: u32| start <= s <= end)
}

/// The line numbers that an optional range leaves, or what is wrong with the range.
pub open spec fn after_seq_filter(seqs: Seq<u32>, range: Option<String>) -> Result<
    Seq<u32>,
    Seq<char>,
> {
    match range {
        None => Ok(seqs),
        Some(text) => match seq_range(text@) {
            Ok((start, end)) => Ok(within_seq_range(seqs, start, end)),
            Err(e) => Err(e),
        },
    }
}

/// Leaves out the line numbers outside an optional range.
pub fn filter_by_seq(seqs: Vec<u32>, range: &Option<String>) -> (r: Result<Vec<u32>, String>)
    ensures
        match r {
            Ok(kept) => after_seq_filter(seqs@, *range) == Ok::<Seq<u32>, Seq<char>>(kept@),
            Err(e) => after_seq_filter(seqs@, *range) == Err::<Seq<u32>, Seq<char>>(e@),
        },
{
    let text = match range {
        None => {
            return Ok(seqs);
        },
        Some(text) => text,
    };
    let (start, end): (u32, u32) = match parse_seq_range(text.as_str()) {
        Ok(range) => range,
        Err(e) => {
            return Err(e);
        },
    };
    let ghost keep = |s: u32| start <= s <= end;
    let mut kept: Vec<u32> = Vec::new();
    let mut i: usize = 0;
    proof {
        lemma_filter_ends(seqs@, keep);
    }
    while i < seqs.len()
        invariant
            keep == (|s: u32| start <= s <= end),
            i <= seqs@.len(),
            kept@ == seqs@.take(i as int).filter(keep),
        decreases seqs@.len() - i,
    {
        proof {
            lemma_filter_step(seqs@, keep, i as int);
        }
        if start <= seqs[i] && seqs[i] <= end {
            kept.push(seqs[i]);
        }
        i = i + 1;
    }
    Ok(kept)
}

/// The line numbers that a search gives for a request, before their lines are loaded.
pub struct InstructionSelection {
    /// The numbers of the lines to load.
    pub preview_seqs: Vec<u32>,
    /// How many results there are to show: those chosen, or, where a new search was limited to a
    /// range of line numbers, all in the range.
    pub total_after_seq_filter: usize,
    /// How many results the search has.
    pub total_matches: u32,
    /// How many lines were looked at.
    pub total_scanned: u32,
}

/// Searches for a request and chooses the lines to load for it.
pub fn select_instructions(
    engine: &mut TraceEngine,
    session_id: &str,
    req: &SearchInstructionsRequest,
    num_cpus: usize,
) -> (r: Result<InstructionSelection, String>)
    requires
        old(engine).well_formed(),
    ensures
        final(engine).well_formed(),
        final(engine)@ == after_selection(old(engine)@, session_id@, *req),
        match all_results(old(engine)@, session_id@, *req) {
            Err(v) => r matches Err(e) && e@ == error_text(v),
            Ok((all, total, scanned)) => match after_seq_filter(all, req.seq_range) {
                Err(t) => r matches Err(e) && e@ == t,
                Ok(inside) => {
                    &&& r matches Ok(sel)
                    &&& sel.preview_seqs@ == selected(inside, *req)
                    &&& sel.total_after_seq_filter == if req.seq_range is Some
                        && !continues_search(*req) {
                        inside.len()
                    } else {
                        selected(inside, *req).len()
                    }
                    &&& sel.total_matches == total
                    &&& sel.total_scanned == scanned
                },
            },
        },
{
    let max: u32 = min_u32(
        match req.max_results {
            Some(n) => n,
            None => DEFAULT_SEARCH,
        },
        MAX_SEARCH,
    );
    let use_cache: bool = match req.cache {
        Some(b) => b,
        None => false,
    };
    let offset: u32 = match req.seq_offset {
        Some(n) => n,
        None => 0,
    };
    let ranged: bool = req.seq_range.is_some();
    let wanted: u32 = if ranged {
        u32::MAX
    } else {
        max
    };
    if use_cache && offset > 0 {
        let from: u32 = if ranged {
            0
        } else {
            offset
        };
        proof {
            engine.lemma_kept_fits();
        }
        let kept = match engine.fetch_search_page(session_id, from, wanted) {
            Ok((_, page)) => page,
            Err(e) => {
                return Err(e.message());
            },
        };
        let ghost all = engine@[session_place(engine@, session_id@).unwrap()].kept;
        proof {
            lemma_place_is_there(engine@, session_id@);
            law_first_page_is_a_page(all, u32::MAX as int);
        }
        assert(ranged ==> kept@ == all);
        let inside = match filter_by_seq(kept, &req.seq_range) {
            Ok(inside) => inside,
            Err(e) => {
                return Err(e);
            },
        };
        let preview_seqs = if ranged {
            copy_page(&inside, offset as usize, max as usize)
        } else {
            inside
        };
        return Ok(
            InstructionSelection {
                total_after_seq_filter: preview_seqs.len(),
                preview_seqs,
                total_matches: 0,
                total_scanned: 0,
            },
        );
    }
    let options = SearchOptions {
        case_sensitive: req.case_sensitive,
        use_regex: req.use_regex,
        fuzzy: false,
        max_results: Some(wanted),
        cache: use_cache,
        seq_offset: None,
    };
    let ghost before = engine@;
    assert(options == tool_options(*req));
    let result = match engine.search(session_id, req.query.as_str(), options, num_cpus) {
        Ok(result) => result,
        Err(e) => {
            return Err(e.message());
        },
    };
    let ghost found = search_found(before, session_id@, req.query@, tool_options(*req))->Ok_0;
    let seqs: Vec<u32> = if use_cache {
        proof {
            let i = session_place(before, session_id@).unwrap();
            law_kept_search_is_read_back(before, session_id@, engine@[i].generation, found);
            lemma_place_is_there(before, session_id@);
            law_first_page_is_a_page(found, wanted as int);
        }
        match engine.fetch_search_page(session_id, 0, wanted) {
            Ok((_, page)) => page,
            Err(e) => {
                return Err(e.message());
            },
        }
    } else {
        result.match_seqs
    };
    assert(seqs@ == first_of(found, wanted as int));
    let inside = match filter_by_seq(seqs, &req.seq_range) {
        Ok(inside) => inside,
        Err(e) => {
            return Err(e);
        },
    };
    let total_after_seq_filter: usize = inside.len();
    let mut preview_seqs = inside;
    if preview_seqs.len() > max as usize {
        preview_seqs.truncate(max as usize);
    }
    Ok(
        InstructionSelection {
            preview_seqs,
            total_after_seq_filter,
            total_matches: result.total_matches,
            total_scanned: result.total_scanned,
        },
    )
}

/// The answer to a search.
pub struct SearchInstructionsResponse {
    pub matches: Vec<ShownLine>,
    pub total_matches: usize,
    pub total_scanned: u32,
    pub truncated: bool,
}

/// How many results the answer says there are: where a filter was asked for, those that there are
/// to show before lines are left out by their address; else all.
pub open spec fn effective_total(
    req: SearchInstructionsRequest,
    selection: InstructionSelection,
) -> int {
    if req.seq_range is Some || req.addr_range is Some {
        selection.total_after_seq_filter as int
    } else {
        selection.total_matches as int
    }
}

/// Answers a search, once the lines of `selection` are loaded.
pub fn search_response(
    req: &SearchInstructionsRequest,
    selection: &InstructionSelection,
    lines: Vec<TraceLine>,
) -> (r: Result<SearchInstructionsResponse, String>)
    ensures
        match after_addr_filter(lines@, req.addr_range) {
            Err(t) => r matches Err(e) && e@ == t,
            Ok(kept) => {
                let given = first_of(kept, search_max(*req));
                &&& r matches Ok(res)
                &&& res.matches@ == shown_lines(given, req.full)
                &&& res.total_matches == effective_total(*req, *selection)
                &&& res.total_scanned == selection.total_scanned
                &&& res.truncated == (given.len() < selection.total_after_seq_filter || (
                result_offset(*req) == 0 && effective_total(*req, *selection)
                    < selection.total_matches))
            },
        },
{
    let max: u32 = min_u32(
        match req.max_results {
            Some(n) => n,
            None => DEFAULT_SEARCH,
        },
        MAX_SEARCH,
    );
    let offset: u32 = match req.seq_offset {
        Some(n) => n,
        None => 0,
    };
    let kept = match filter_by_addr(lines, &req.addr_range) {
        Ok(kept) => kept,
        Err(e) => {
            return Err(e);
        },
    };
    let count: usize = if kept.len() < max as usize {
        kept.len()
    } else {
        max as usize
    };
    let given = slice_subrange(kept.as_slice(), 0, count);
    assert(given@ =~= first_of(kept@, max as int));
    let total: usize = if req.seq_range.is_some() || req.addr_range.is_some() {
        selection.total_after_seq_filter
    } else {
        selection.total_matches as usize
    };
    Ok(
        SearchInstructionsResponse {
            matches: format_lines(given, req.full),
            total_matches: total,
            total_scanned: selection.total_scanned,
            truncated: count < selection.total_after_seq_filter || (offset == 0 && (total as u64)
                < selection.total_matches as u64),
        },
    )
}

/// However much was asked for, 200 results at most are chosen, and all of them lie in the range of
/// line numbers that was asked for.
pub proof fn law_selection_is_bounded(
    sessions: Seq<SessionView>,
    session_id: Seq<char>,
    req: SearchInstructionsRequest,
)
    ensures
        search_max(req) <= 200,
        all_results(sessions, session_id, req) matches Ok((all, _, _)) ==> (after_seq_filter(
            all,
            req.seq_range,
        ) matches Ok(inside) ==> {
            let chosen = selected(inside, req);
            &&& chosen.len() <= search_max(req)
            &&& req.seq_range matches Some(text) ==> forall|i: int|
                0 <= i < chosen.len() ==> (seq_range(text@)->Ok_0).0 <= #[trigger] chosen[i]
                    <= (seq_range(text@)->Ok_0).1
        }),
{
    if let Ok((all, _, _)) = all_results(sessions, session_id, req) {
        if let Some(text) = req.seq_range {
            if let Ok((start, end)) = seq_range(text@) {
                let keep = |s: u32| start <= s <= end;
                let inside = all.filter(keep);
                assert forall|i: int| 0 <= i < inside.len() implies start <= #[trigger] inside[i]
                    <= end by {
                    all.lemma_filter_pred(keep, i);
                }
                let chosen = selected(inside, req);
                assert forall|i: int| 0 <= i < chosen.len() implies start <= #[trigger] chosen[i]
                    <= end by {
                    if continues_search(req) && result_offset(req) < inside.len() {
                        assert(chosen[i] == inside[result_offset(req) + i]);
                    } else {
                        assert(chosen[i] == inside[i]);
                    }
                }
            }
        }
    }
}

/// The range of line numbers limits the search: a matching line in the range is chosen unless
/// enough matching lines in the range come before it, whatever matches outside the range.
pub proof fn law_range_limits_the_search(
    sessions: Seq<SessionView>,
    session_id: Seq<char>,
    req: SearchInstructionsRequest,
    range: String,
)
    requires
        req.seq_range == Some(range),
        !continues_search(req),
    ensures
        (all_results(sessions, session_id, req), seq_range(range@)) matches (
            Ok((found, _, _)),
            Ok((start, end)),
        ) ==> {
            let inside = found.filter(|s: u32| start <= s <= end);
            &&& after_seq_filter(found, req.seq_range) == Ok::<Seq<u32>, Seq<char>>(inside)
            &&& selected(inside, req) == first_of(inside, search_max(req))
            &&& forall|s: u32| #[trigger]
                inside.contains(s) <==> found.contains(s) && start <= s <= end
        },
{
    if let (Ok((found, _, _)), Ok((start, end))) = (
        all_results(sessions, session_id, req),
        seq_range(range@),
    ) {
        lemma_found_ascends(sessions, session_id, req);
        lemma_filter_ascending(found, |s: u32| start <= s <= end);
    }
}

/// The request for page number `k` of a search, counted from zero.
pub open spec fn page_request(req: SearchInstructionsRequest, k: int) -> SearchInstructionsRequest {
    SearchInstructionsRequest { seq_offset: Some((k * search_max(req)) as u32), ..req }
}

/// The first `n` pages of a search that is kept, one behind the other: the first is asked for in
/// `sessions`, the others once it was answered.
pub open spec fn pages_chosen(
    sessions: Seq<SessionView>,
    session_id: Seq<char>,
    req: SearchInstructionsRequest,
    n: nat,
) -> Seq<u32>
    decreases n,
{
    if n == 0 {
        Seq::empty()
    } else {
        let k = n - 1;
        let asked = page_request(req, k);
        let then = if k == 0 {
            sessions
        } else {
            after_selection(sessions, session_id, page_request(req, 0))
        };
        pages_chosen(sessions, session_id, req, k as nat) + selected(
            after_seq_filter(
                (all_results(then, session_id, asked)->Ok_0).0,
                req.seq_range,
            )->Ok_0,
            asked,
        )
    }
}

proof fn lemma_found_ascends(
    sessions: Seq<SessionView>,
    session_id: Seq<char>,
    req: SearchInstructionsRequest,
)
    requires
        !continues_search(req),
    ensures
        all_results(sessions, session_id, req) matches Ok((found, _, _)) ==> ascending(found),
{
    if let Ok((found, _, _)) = all_results(sessions, session_id, req) {
        let i = session_place(sessions, session_id).unwrap();
        if req.query@.len() > 0 {
            let options = tool_options(req);
            let mode = search_mode(
                req.query@,
                options.case_sensitive,
                options.use_regex,
                options.fuzzy,
            )->Ok_0;
            law_search_finds_the_matching_lines(sessions[i], mode);
        }
    }
}

/// A search that is kept is given out page by page: asked for one behind the other, and with no
/// other search between, the pages are all matching lines (in the range of line numbers, if one was
/// asked for), in ascending order, none left out and none twice. No page after the first makes a
/// new search or changes anything.
pub proof fn law_pages_of_a_search(
    sessions: Seq<SessionView>,
    session_id: Seq<char>,
    req: SearchInstructionsRequest,
    n: nat,
)
    requires
        wants_cache(req),
        search_max(req) > 0,
        (n - 1) * search_max(req) <= u32::MAX,
    ensures
        all_results(sessions, session_id, page_request(req, 0)) matches Ok((found, total, _)) ==> (
        after_seq_filter(found, req.seq_range) matches Ok(inside) ==> {
            let pages = pages_chosen(sessions, session_id, req, n);
            let after = after_selection(sessions, session_id, page_request(req, 0));
            &&& total == found.len()
            &&& ascending(inside)
            &&& req.seq_range is None ==> inside == found
            &&& pages == first_of(inside, n * search_max(req))
            &&& n * search_max(req) >= inside.len() ==> pages == inside
            &&& forall|k: int|
                0 < k < n ==> {
                    let asked = #[trigger] page_request(req, k);
                    &&& continues_search(asked)
                    &&& all_results(after, session_id, asked) is Ok
                    &&& after_selection(after, session_id, asked) == after
                }
        }),
{
    let first = page_request(req, 0);
    let max = search_max(req);
    assert(0 * max == 0) by (nonlinear_arith);
    assert(!continues_search(first));
    if let Ok((found, _, _)) = all_results(sessions, session_id, first) {
        if let Ok(inside) = after_seq_filter(found, req.seq_range) {
            lemma_found_ascends(sessions, session_id, first);
            if let Some(text) = req.seq_range {
                let (start, end) = seq_range(text@)->Ok_0;
                lemma_filter_ascending(found, |s: u32| start <= s <= end);
            }
            lemma_pages_chosen(sessions, session_id, req, n, found, inside);
            law_pages_give_back_the_whole(inside, max, n);
            assert forall|k: int| 0 < k < n implies {
                let asked = #[trigger] page_request(req, k);
                let after = after_selection(sessions, session_id, first);
                &&& continues_search(asked)
                &&& all_results(after, session_id, asked) is Ok
                &&& after_selection(after, session_id, asked) == after
            } by {
                lemma_later_page(sessions, session_id, req, n, k, found);
            }
        }
    }
}

proof fn lemma_later_page(
    sessions: Seq<SessionView>,
    session_id: Seq<char>,
    req: SearchInstructionsRequest,
    n: nat,
    k: int,
    found: Seq<u32>,
)
    requires
        wants_cache(req),
        search_max(req) > 0,
        (n - 1) * search_max(req) <= u32::MAX,
        0 < k < n,
        all_results(sessions, session_id, page_request(req, 0)) matches Ok((f, _, _)) && f == found,
    ensures
        continues_search(page_request(req, k)),
        result_offset(page_request(req, k)) == k * search_max(req),
        all_results(
            after_selection(sessions, session_id, page_request(req, 0)),
            session_id,
            page_request(req, k),
        ) == Ok::<(Seq<u32>, nat, nat), ErrorView>((found, 0, 0)),
{
    let max = search_max(req);
    let first = page_request(req, 0);
    assert(0 * max == 0) by (nonlinear_arith);
    assert(0 < k * max <= (n - 1) * max) by (nonlinear_arith)
        requires
            0 < k <= n - 1,
            0 < max,
    ;
    let i = session_place(sessions, session_id).unwrap();
    let after = after_selection(sessions, session_id, first);
    lemma_place_is_there(sessions, session_id);
    law_kept_search_is_read_back(sessions, session_id, after[i].generation, found);
}

proof fn lemma_pages_chosen(
    sessions: Seq<SessionView>,
    session_id: Seq<char>,
    req: SearchInstructionsRequest,
    n: nat,
    found: Seq<u32>,
    inside: Seq<u32>,
)
    requires
        wants_cache(req),
        search_max(req) > 0,
        (n - 1) * search_max(req) <= u32::MAX,
        all_results(sessions, session_id, page_request(req, 0)) matches Ok((f, _, _)) && f == found,
        after_seq_filter(found, req.seq_range) == Ok::<Seq<u32>, Seq<char>>(inside),
    ensures
        pages_chosen(sessions, session_id, req, n) == pages_joined(inside, search_max(req), n),
    decreases n,
{
    let max = search_max(req);
    if n > 0 {
        let k = n - 1;
        assert((k - 1) * max <= k * max) by (nonlinear_arith)
            requires
                0 < max,
        ;
        lemma_pages_chosen(sessions, session_id, req, k as nat, found, inside);
        if k == 0 {
            assert(0 * max == 0) by (nonlinear_arith);
            law_first_page_is_a_page(inside, max);
        } else {
            lemma_later_page(sessions, session_id, req, n, k, found);
        }
    }
}

/// A request is given as many results as it asks for, 30 where it does not say, and 200 at most. It
/// continues a search exactly if it wants the search kept and starts behind the first result.
pub proof fn law_what_a_request_asks_for(req: SearchInstructionsRequest)
    ensures
        search_max(req) == match req.max_results {
            Some(n) if n <= 200 => n as int,
            Some(_) => 200,
            None => 30,
        },
        wants_cache(req) <==> req.cache == Some(true),
        result_offset(req) == match req.seq_offset {
            Some(n) => n as int,
            None => 0,
        },
        continues_search(req) <==> req.cache == Some(true) && req.seq_offset is Some
            && req.seq_offset != Some(0u32),
        tool_options(req).case_sensitive == req.case_sensitive,
        tool_options(req).use_regex == req.use_regex,
        !tool_options(req).fuzzy,
        tool_options(req).cache <==> req.cache == Some(true),
        tool_options(req).seq_offset is None,
        req.seq_range is Some ==> tool_options(req).max_results == Some(4294967295u32),
        req.seq_range is None ==> tool_options(req).max_results == Some(
            match req.max_results {
                Some(n) if n <= 200 => n,
                Some(_) => 200u32,
                None => 30u32,
            },
        ),
{
}

/// Where a search is continued, the results are those that the session kept and nothing changes;
/// else they are what a new search finds, which is counted and leaves the sessions as a search does.
pub proof fn law_where_results_come_from(
    sessions: Seq<SessionView>,
    session_id: Seq<char>,
    req: SearchInstructionsRequest,
)
    ensures
        continues_search(req) ==> {
            &&& after_selection(sessions, session_id, req) == sessions
            &&& match session_place(sessions, session_id) {
                Some(i) => all_results(sessions, session_id, req) == Ok::<
                    (Seq<u32>, nat, nat),
                    ErrorView,
                >((sessions[i].kept, 0, 0)),
                None => all_results(sessions, session_id, req) == Err::<
                    (Seq<u32>, nat, nat),
                    ErrorView,
                >(ErrorView::SessionNotFound(session_id)),
            }
        },
        !continues_search(req) ==> {
            &&& after_selection(sessions, session_id, req) == after_search(
                sessions,
                session_id,
                req.query@,
                tool_options(req),
            )
            &&& match (
                search_found(sessions, session_id, req.query@, tool_options(req)),
                all_results(sessions, session_id, req),
            ) {
                (Ok(found), Ok((all, total, scanned))) => all == found && total == found.len()
                    && scanned == search_scanned(sessions, session_id, req.query@),
                (Err(v), Err(w)) => v == w,
                _ => false,
            }
        },
{
}

/// Of the results in the range of line numbers, a request is given those from its offset on where it
/// continues a search and those from the first on where it does not, as many as it asks for, as far
/// as there are any.
pub proof fn law_which_results_are_given(
    inside: Seq<u32>,
    req: SearchInstructionsRequest,
    seqs: Seq<u32>,
    range: String,
)
    ensures
        ({
            let from = if continues_search(req) {
                result_offset(req)
            } else {
                0
            };
            let given = selected(inside, req);
            &&& given.len() == if from >= inside.len() {
                0
            } else if from + search_max(req) <= inside.len() {
                search_max(req)
            } else {
                inside.len() - from
            }
            &&& forall|i: int| 0 <= i < given.len() ==> #[trigger] given[i] == inside[from + i]
        }),
        after_seq_filter(seqs, None) == Ok::<Seq<u32>, Seq<char>>(seqs),
        match (seq_range(range@), after_seq_filter(seqs, Some(range))) {
            (Ok((start, end)), Ok(kept)) => kept == seqs.filter(
                |s: u32| start <= s && s <= end,
            ),
            (Err(e), Err(t)) => e == t,
            _ => false,
        },
{
    if let Ok((start, end)) = seq_range(range@) {
        assert((|s: u32| start <= s && s <= end) =~= (|s: u32| start <= s <= end));
    }
}

/// An answer says that there are as many results as the search has, unless a filter was asked for;
/// then it says how many there were to show.
pub proof fn law_how_many_results_are_told(
    req: SearchInstructionsRequest,
    selection: InstructionSelection,
)
    ensures
        req.seq_range is None && req.addr_range is None ==> effective_total(req, selection)
            == selection.total_matches,
        req.seq_range is Some || req.addr_range is Some ==> effective_total(req, selection)
            == selection.total_after_seq_filter,
{
}

/// The answer to a search shows, of the loaded lines, those in the address range, from the first on
/// and as many as the request is given. It says that something is missing where it shows fewer than
/// there were to show, and where a filter left out some of what a search found that was asked for
/// from its first result on.
pub proof fn law_what_an_answer_shows(
    req: SearchInstructionsRequest,
    selection: InstructionSelection,
    lines: Vec<TraceLine>,
    r: Result<SearchInstructionsResponse, String>,
)
    requires
        call_ensures(search_response, (&req, &selection, lines), r),
    ensures
        r is Ok <==> after_addr_filter(lines@, req.addr_range) is Ok,
        r matches Ok(res) ==> {
            let kept = after_addr_filter(lines@, req.addr_range)->Ok_0;
            &&& res.matches@.len() == if kept.len() < search_max(req) {
                kept.len() as int
            } else {
                search_max(req)
            }
            &&& forall|i: int|
                0 <= i < res.matches@.len() ==> #[trigger] res.matches@[i] == shown_line(
                    kept[i],
                    req.full,
                )
            &&& res.total_scanned == selection.total_scanned
            &&& req.seq_range is None && req.addr_range is None ==> res.total_matches
                == selection.total_matches
            &&& res.matches@.len() < selection.total_after_seq_filter ==> res.truncated
            &&& result_offset(req) == 0 && res.total_matches < selection.total_matches
                ==> res.truncated
            &&& res.truncated ==> res.matches@.len() < selection.total_after_seq_filter || (
            result_offset(req) == 0 && res.total_matches < selection.total_matches)
        },
        (r, after_addr_filter(lines@, req.addr_range)) matches (Err(e), Err(t)) ==> e@ == t,
{
}

} // verus!
