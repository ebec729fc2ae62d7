//! The commands of the desktop application: what they hand to the engine and what they give back.

use vstd::prelude::*;
use vstd::string::*;

use crate::api_types::{BuildOptions, BuildResult, DepTreeOptions, SearchMatch, SearchOptions, SearchResultLite, SessionInfo, SliceOptions, StringQueryOptions, TraceFormat, TraceLine};
use crate::engine::{after_search, page_of, reads_as, result_limit, search_found, search_scanned, session_place, shown_matches, takes_any_line, TraceEngine};
use crate::error::{error_text, ErrorView};
use crate::matching::search_mode;
use crate::scan::first_of;

verus! {

/// What opening a trace gives.
pub struct CreateSessionResult {
    pub session_id: String,
    pub total_lines: u32,
    pub file_size: u64,
}

/// What is given back of a session that was opened.
pub fn session_created(info: SessionInfo) -> (r: CreateSessionResult)
    ensures
        r == (CreateSessionResult {
            session_id: info.session_id,
            total_lines: info.total_lines,
            file_size: info.file_size,
        }),
{
    CreateSessionResult {
        session_id: info.session_id,
        total_lines: info.total_lines,
        file_size: info.file_size,
    }
}

/// What is said where a command could not be carried out on its thread.
pub fn task_failure(cause: &str) -> (r: String)
    ensures
        r@ == "Task execution failed: "@ + cause@,
{
    let mut m = "Task execution failed: ".to_owned();
    m.append(cause);
    m
}

/// What is said where a tool panicked on its thread.
pub fn task_panic(cause: &str) -> (r: String)
    ensures
        r@ == "Task panicked: "@ + cause@,
{
    let mut m = "Task panicked: ".to_owned();
    m.append(cause);
    m
}

/// A switch that is off unless it was set.
pub open spec fn is_on(switch: Option<bool>) -> bool {
    switch == Some(true)
}

fn switched_on(switch: Option<bool>) -> (b: bool)
    ensures
        b == is_on(switch),
{
    match switch {
        Some(b) => b,
        None => false,
    }
}

/// How the index of a trace is to be built.
pub fn build_options(force: Option<bool>, skip_strings: Option<bool>) -> (r: BuildOptions)
    ensures
        r == (BuildOptions { force_rebuild: is_on(force), skip_strings: is_on(skip_strings) }),
{
    BuildOptions { force_rebuild: switched_on(force), skip_strings: switched_on(skip_strings) }
}

/// What the client is told once an index was to be built, whether that went well or not.
pub struct IndexDone {
    pub session_id: String,
    pub total_lines: Option<u32>,
    pub has_string_index: Option<bool>,
    pub error: Option<String>,
}

/// The index with these numbers was built.
pub open spec fn tells_success(event: IndexDone, build: BuildResult) -> bool {
    &&& event.total_lines == Some(build.total_lines)
    &&& event.has_string_index == Some(build.has_string_index)
    &&& event.error is None
}

/// The index was not built, for this reason.
pub open spec fn tells_failure(event: IndexDone, cause: Seq<char>) -> bool {
    &&& event.total_lines is None
    &&& event.has_string_index is None
    &&& event.error matches Some(e)
    &&& e@ == cause
}

fn failed(session_id: &str, cause: String) -> (r: (IndexDone, Result<(), String>))
    ensures
        r.0.session_id@ == session_id@,
        tells_failure(r.0, cause@),
        r.1 == Err::<(), String>(cause),
{
    (
        IndexDone {
            session_id: session_id.to_owned(),
            total_lines: None,
            has_string_index: None,
            error: Some(cause.clone()),
        },
        Err(cause),
    )
}

/// What the client is told at the end of building an index, and what the command answers.
/// `joined` is what the thread that built it gave back, or why it gave nothing back. The client is
/// told in every case, so that it does not wait for ever.
pub fn index_done(session_id: &str, joined: Result<Result<BuildResult, String>, String>) -> (r: (
    IndexDone,
    Result<(), String>,
))
    ensures
        r.0.session_id@ == session_id@,
        match joined {
            Ok(Ok(build)) => tells_success(r.0, build) && r.1 is Ok,
            Ok(Err(e)) => tells_failure(r.0, e@) && r.1 == Err::<(), String>(e),
            Err(cause) => {
                &&& tells_failure(r.0, "Task execution failed: "@ + cause@)
                &&& r.1 matches Err(e)
                &&& e@ == "Task execution failed: "@ + cause@
            },
        },
{
    match joined {
        Ok(Ok(build)) => (
            IndexDone {
                session_id: session_id.to_owned(),
                total_lines: Some(build.total_lines),
                has_string_index: Some(build.has_string_index),
                error: None,
            },
            Ok(()),
        ),
        Ok(Err(e)) => failed(session_id, e),
        Err(cause) => failed(session_id, task_failure(cause.as_str())),
    }
}

/// Search a trace.
pub struct SearchRequest {
    pub query: String,
    pub max_results: Option<u32>,
    pub case_sensitive: bool,
    pub use_regex: bool,
    pub fuzzy: bool,
}

/// How the engine is to search for a request.
pub open spec fn request_options(request: SearchRequest) -> SearchOptions {
    SearchOptions {
        case_sensitive: request.case_sensitive,
        use_regex: request.use_regex,
        fuzzy: request.fuzzy,
        max_results: request.max_results,
        cache: false,
        seq_offset: None,
    }
}

/// Searches a trace. `num_cpus` is the number of processors to use.
pub fn search_trace(
    engine: &mut TraceEngine,
    session_id: &str,
    request: &SearchRequest,
    num_cpus: usize,
) -> (r: Result<SearchResultLite, String>)
    requires
        old(engine).well_formed(),
    ensures
        final(engine).well_formed(),
        match search_found(old(engine)@, session_id@, request.query@, request_options(*request)) {
            Err(v) => r matches Err(e) && e@ == error_text(v),
            Ok(found) => {
                let limit = result_limit(request_options(*request));
                &&& r matches Ok(res)
                &&& res.match_seqs@ == first_of(found, limit)
                &&& res.total_scanned == search_scanned(old(engine)@, session_id@, request.query@)
                &&& res.total_matches == found.len()
                &&& res.truncated == (found.len() > limit)
            },
        },
        final(engine)@ == after_search(
            old(engine)@,
            session_id@,
            request.query@,
            request_options(*request),
        ),
{
    let options = SearchOptions {
        case_sensitive: request.case_sensitive,
        use_regex: request.use_regex,
        fuzzy: request.fuzzy,
        max_results: request.max_results,
        cache: false,
        seq_offset: None,
    };
    assert(options == request_options(*request));
    match engine.search(session_id, request.query.as_str(), options, num_cpus) {
        Ok(result) => Ok(result),
        Err(e) => Err(e.message()),
    }
}

/// A piece of what a kept search found.
pub struct SearchPageResult {
    pub generation: u64,
    pub seqs: Vec<u32>,
}

/// Gives a piece of what the last kept search found, with the number of that search.
pub fn fetch_search_page(engine: &TraceEngine, session_id: &str, offset: u32, count: u32) -> (r: Result<
    SearchPageResult,
    String,
>)
    ensures
        match session_place(engine@, session_id@) {
            None => r matches Err(e) && e@ == error_text(ErrorView::SessionNotFound(session_id@)),
            Some(i) => {
                &&& r matches Ok(page)
                &&& page.generation == engine@[i].generation
                &&& page.seqs@ == page_of(engine@[i].kept, offset as int, count as int)
            },
        },
{
    match engine.fetch_search_page(session_id, offset, count) {
        Ok((generation, seqs)) => Ok(SearchPageResult { generation, seqs }),
        Err(e) => Err(e.message()),
    }
}

/// Show lines that a search found.
pub struct GetSearchMatchesRequest {
    pub seqs: Vec<u32>,
    pub query: String,
    pub case_sensitive: bool,
    pub use_regex: bool,
    pub fuzzy: bool,
}

/// Shows lines that a search found. `parse` takes a line of a trace apart, given the format of the
/// trace and the number of the line, or gives nothing where that cannot be done.
pub fn get_search_matches<F: Fn(TraceFormat, u32, &[u8]) -> Option<TraceLine>>(
    engine: &TraceEngine,
    session_id: &str,
    request: &GetSearchMatchesRequest,
    parse: &F,
) -> (r: Result<Vec<SearchMatch>, String>)
    requires
        engine.well_formed(),
        takes_any_line(*parse),
    ensures
        if request.seqs@.len() == 0 {
            r matches Ok(ms) && ms@.len() == 0
        } else {
            match search_mode(
                request.query@,
                request.case_sensitive,
                request.use_regex,
                request.fuzzy,
            ) {
                Err(v) => r matches Err(e) && e@ == error_text(v),
                Ok(mode) => match session_place(engine@, session_id@) {
                    None => r matches Err(e) && e@ == error_text(
                        ErrorView::SessionNotFound(session_id@),
                    ),
                    Some(i) => if engine@[i].indexed is None {
                        r matches Err(e) && e@ == error_text(
                            ErrorView::Internal("Line index not available"@),
                        )
                    } else {
                        &&& r matches Ok(ms)
                        &&& ms@.len() <= request.seqs@.len()
                        &&& forall|
                            reads: spec_fn(TraceFormat, u32, Seq<u8>) -> Option<TraceLine>,
                        | #[trigger]
                            reads_as(*parse, reads) ==> ms@ == shown_matches(
                                engine@[i],
                                mode,
                                request.seqs@,
                                reads,
                                request.seqs@.len(),
                            )
                    },
                },
            }
        },
{
    match engine.get_search_matches(
        session_id,
        request.query.as_str(),
        request.seqs.as_slice(),
        request.case_sensitive,
        request.use_regex,
        request.fuzzy,
        parse,
    ) {
        Ok(matches) => Ok(matches),
        Err(e) => Err(e.message()),
    }
}

/// What the engine is asked to trace.
pub fn slice_options(start_seq: Option<u32>, end_seq: Option<u32>, data_only: Option<bool>) -> (r:
    SliceOptions)
    ensures
        r == (SliceOptions { start_seq, end_seq, data_only: is_on(data_only) }),
{
    SliceOptions { start_seq, end_seq, data_only: switched_on(data_only) }
}

/// How the engine is to build a tree of dependencies.
pub fn dep_tree_options(data_only: Option<bool>, max_nodes: Option<u32>) -> (r: DepTreeOptions)
    ensures
        r == (DepTreeOptions { data_only: is_on(data_only), max_nodes }),
{
    DepTreeOptions { data_only: switched_on(data_only), max_nodes }
}

/// Which strings the engine is asked for.
pub fn string_options(min_len: u32, offset: u32, limit: u32, search: Option<String>) -> (r:
    StringQueryOptions)
    ensures
        r == (StringQueryOptions { min_len, offset, limit, search }),
{
    StringQueryOptions { min_len, offset, limit, search }
}

/// A switch that is not given is off. A client is told of a built index by its numbers and without
/// an error, of one that was not built by the error alone.
pub proof fn law_what_a_client_is_told(event: IndexDone, build: BuildResult, cause: Seq<char>)
    ensures
        !is_on(None),
        !is_on(Some(false)),
        is_on(Some(true)),
        tells_success(event, build) <==> event.error is None && event.total_lines == Some(
            build.total_lines,
        ) && event.has_string_index == Some(build.has_string_index),
        tells_failure(event, cause) <==> event.total_lines is None && event.has_string_index is None
            && (event.error matches Some(e) && e@ == cause),
        !(tells_success(event, build) && tells_failure(event, cause)),
{
}

/// A search is made with the switches and the limit of its request, and is not asked to be kept; so
/// it is kept, all of it and with the first 5000 lines given back, exactly if the request has no
/// limit.
pub proof fn law_a_request_is_searched_as_asked(request: SearchRequest)
    ensures
        ({
            let options = request_options(request);
            &&& options.case_sensitive == request.case_sensitive
            &&& options.use_regex == request.use_regex
            &&& options.fuzzy == request.fuzzy
            &&& options.max_results == request.max_results
            &&& !options.cache
            &&& options.seq_offset is None
            &&& request.max_results is None ==> result_limit(options) == 5000
            &&& request.max_results matches Some(n) ==> result_limit(options) == n
        }),
{
}

/// Once an index was to be built the client is told of the session, and the command answers that it
/// went well exactly if the client is told no error; else it answers with the error that the client
/// is told.
pub proof fn law_the_client_never_waits_for_ever(
    session_id: &str,
    joined: Result<Result<BuildResult, String>, String>,
    r: (IndexDone, Result<(), String>),
)
    requires
        call_ensures(index_done, (session_id, joined), r),
    ensures
        r.0.session_id@ == session_id@,
        r.1 is Ok <==> r.0.error is None,
        r.1 is Ok <==> (joined matches Ok(built) && built is Ok),
        (r.1, r.0.error) matches (Err(a), Some(b)) ==> a@ == b@,
        joined matches Ok(Ok(build)) ==> r.0.total_lines == Some(build.total_lines)
            && r.0.has_string_index == Some(build.has_string_index),
        joined matches Ok(Err(e)) ==> (r.1 matches Err(a) && a@ == e@),
        joined matches Err(cause) ==> (r.1 matches Err(a) && a@ == "Task execution failed: "@
            + cause@),
        r.1 is Err ==> r.0.total_lines is None && r.0.has_string_index is None,
{
}

} // verus!
