//! Opening a trace.

use vstd::prelude::*;
use vstd::string::*;

use crate::api_types::{clone_text, BuildOptions, BuildResult, CallTreeNodeDto, SessionInfo, TraceFormat, TraceLine};
use crate::requests::OpenTraceRequest;

verus! {

/// What follows once the trace was to be opened: the session whose index is to be built and how,
/// or what is said to the client. `created` has the error of the engine as text.
pub fn after_create(req: &OpenTraceRequest, created: Result<SessionInfo, String>) -> (r: Result<
    (SessionInfo, BuildOptions),
    String,
>)
    ensures
        match created {
            Ok(session) => r == Ok::<(SessionInfo, BuildOptions), String>(
                (
                    session,
                    BuildOptions {
                        force_rebuild: req.force_rebuild,
                        skip_strings: req.skip_strings,
                    },
                ),
            ),
            Err(cause) => r matches Err(e) && e@ == "Failed to open trace: "@ + cause@,
        },
{
    match created {
        Ok(session) => Ok(
            (
                session,
                BuildOptions { force_rebuild: req.force_rebuild, skip_strings: req.skip_strings },
            ),
        ),
        Err(cause) => {
            let mut m = "Failed to open trace: ".to_owned();
            m.append(cause.as_str());
            Err(m)
        },
    }
}

/// What is to be done once the index of a trace was to be built.
pub enum OpenStep {
    /// Ask the engine what else it knows of the trace, and answer.
    Answer(BuildResult),
    /// Close the session with this id again, and say why.
    CloseAndFail(String, String),
}

/// What follows once the index of the trace was to be built. Where that failed, the session does
/// not stay open.
pub fn after_build(session: &SessionInfo, built: Result<BuildResult, String>) -> (r: OpenStep)
    ensures
        match built {
            Ok(build) => r == OpenStep::Answer(build),
            Err(cause) => r matches OpenStep::CloseAndFail(id, e) && id == session.session_id && e@
                == "Failed to build index: "@ + cause@,
        },
{
    match built {
        Ok(build) => OpenStep::Answer(build),
        Err(cause) => {
            let mut m = "Failed to build index: ".to_owned();
            m.append(cause.as_str());
            OpenStep::CloseAndFail(session.session_id.clone(), m)
        },
    }
}

/// The name of a trace format.
pub open spec fn format_name(f: TraceFormat) -> Seq<char> {
    match f {
        TraceFormat::Unidbg => "Unidbg"@,
        TraceFormat::Gumtrace => "Gumtrace"@,
    }
}

/// What opening a trace gives. What the engine could not tell is absent.
pub struct OpenTraceResponse {
    pub session_id: String,
    pub file_path: String,
    pub file_size: u64,
    pub total_lines: u32,
    pub has_string_index: bool,
    pub from_cache: bool,
    pub module_name: Option<String>,
    pub entry_address: Option<String>,
    pub trace_format: Option<String>,
    pub function_count: Option<u32>,
}

/// The module that the first line belongs to, if there is such a line and it says so.
pub open spec fn first_module(lines: Option<Vec<TraceLine>>) -> Option<String> {
    match lines {
        Some(lines) => if lines@.len() > 0 {
            lines@[0].so_name
        } else {
            None
        },
        None => None,
    }
}

/// The address of the first node, if there is one.
pub open spec fn first_address(nodes: Option<Vec<CallTreeNodeDto>>) -> Option<String> {
    match nodes {
        Some(nodes) => if nodes@.len() > 0 {
            Some(nodes@[0].func_addr)
        } else {
            None
        },
        None => None,
    }
}

/// The format of a trace, if it is known.
pub open spec fn known_format(info: Option<SessionInfo>) -> Option<TraceFormat> {
    match info {
        Some(info) => info.trace_format,
        None => None,
    }
}

/// Answers a request to open a trace once its index is built. `lines` is what the engine gave for
/// the first line, `nodes` for the root of the calls and `info` for the session; each is absent
/// where the engine failed, which does not make opening the trace fail.
pub fn open_response(
    session: &SessionInfo,
    build: &BuildResult,
    lines: &Option<Vec<TraceLine>>,
    nodes: &Option<Vec<CallTreeNodeDto>>,
    info: &Option<SessionInfo>,
    function_count: Option<u32>,
) -> (r: OpenTraceResponse)
    ensures
        r.session_id == session.session_id,
        r.file_path == session.file_path,
        r.file_size == session.file_size,
        r.total_lines == build.total_lines,
        r.has_string_index == build.has_string_index,
        r.from_cache == build.from_cache,
        r.module_name == first_module(*lines),
        r.entry_address == first_address(*nodes),
        match known_format(*info) {
            Some(f) => r.trace_format matches Some(t) && t@ == format_name(f),
            None => r.trace_format is None,
        },
        r.function_count == function_count,
{
    let module_name: Option<String> = match lines {
        Some(lines) => if lines.len() > 0 {
            clone_text(&lines[0].so_name)
        } else {
            None
        },
        None => None,
    };
    let entry_address: Option<String> = match nodes {
        Some(nodes) => if nodes.len() > 0 {
            Some(nodes[0].func_addr.clone())
        } else {
            None
        },
        None => None,
    };
    let trace_format: Option<String> = match info {
        Some(info) => match info.trace_format {
            Some(TraceFormat::Unidbg) => Some("Unidbg".to_owned()),
            Some(TraceFormat::Gumtrace) => Some("Gumtrace".to_owned()),
            None => None,
        },
        None => None,
    };
    OpenTraceResponse {
        session_id: session.session_id.clone(),
        file_path: session.file_path.clone(),
        file_size: session.file_size,
        total_lines: build.total_lines,
        has_string_index: build.has_string_index,
        from_cache: build.from_cache,
        module_name,
        entry_address,
        trace_format,
        function_count,
    }
}

/// A format is told by its name. The module and the address are those of the first line and of the
/// first node, where there are any; the format is told where the session knows it.
pub proof fn law_what_opening_tells(
    lines: Option<Vec<TraceLine>>,
    nodes: Option<Vec<CallTreeNodeDto>>,
    info: Option<SessionInfo>,
)
    ensures
        format_name(TraceFormat::Unidbg) == "Unidbg"@,
        format_name(TraceFormat::Gumtrace) == "Gumtrace"@,
        first_module(lines) == match lines {
            Some(v) if v@.len() > 0 => v@[0].so_name,
            _ => None,
        },
        first_address(nodes) is Some <==> (nodes matches Some(v) && v@.len() > 0),
        nodes matches Some(v) ==> v@.len() > 0 ==> first_address(nodes) == Some(v@[0].func_addr),
        known_format(info) is Some ==> info is Some,
        info matches Some(i) ==> known_format(info) == i.trace_format,
{
}

/// A trace that was opened is indexed as the request asks; one that could not be indexed is closed
/// again, and only then. What went wrong is told with its cause.
pub proof fn law_an_unindexed_trace_is_closed(
    req: OpenTraceRequest,
    created: Result<SessionInfo, String>,
    started: Result<(SessionInfo, BuildOptions), String>,
    session: SessionInfo,
    built: Result<BuildResult, String>,
    step: OpenStep,
)
    requires
        call_ensures(after_create, (&req, created), started),
        call_ensures(after_build, (&session, built), step),
    ensures
        started is Ok <==> created is Ok,
        (created, started) matches (Ok(s), Ok((t, options))) ==> s == t && options.force_rebuild
            == req.force_rebuild && options.skip_strings == req.skip_strings,
        (created, started) matches (Err(cause), Err(e)) ==> e@ == "Failed to open trace: "@ + cause@,
        step is Answer <==> built is Ok,
        (built, step) matches (Ok(b), OpenStep::Answer(a)) ==> a == b,
        (built, step) matches (Err(cause), OpenStep::CloseAndFail(id, e)) ==> id
            == session.session_id && e@ == "Failed to build index: "@ + cause@,
{
}

} // verus!
