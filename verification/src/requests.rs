//! What a client may ask for, and what stands for a field that a request leaves out.

use vstd::prelude::*;

verus! {

/// Open a trace file and index it.
pub struct OpenTraceRequest {
    pub file_path: String,
    pub force_rebuild: bool,
    pub skip_strings: bool,
}

/// Show lines.
pub struct GetTraceLinesRequest {
    pub session_id: Option<String>,
    pub start_seq: u32,
    pub count: u32,
    pub full: bool,
}

/// How many lines are shown where the request does not say.
pub fn default_line_count() -> (r: u32)
    ensures
        r == 20,
{
    20
}

/// Show the bytes at an address.
pub struct GetMemoryRequest {
    pub session_id: Option<String>,
    pub address: String,
    pub seq: Option<u32>,
    pub length: u32,
}

/// How many bytes are shown where the request does not say.
pub fn default_mem_length() -> (r: u32)
    ensures
        r == 64,
{
    64
}

/// Search the lines.
pub struct SearchInstructionsRequest {
    pub session_id: Option<String>,
    pub query: String,
    pub use_regex: bool,
    pub case_sensitive: bool,
    pub max_results: Option<u32>,
    pub full: bool,
    pub seq_range: Option<String>,
    pub addr_range: Option<String>,
    pub cache: Option<bool>,
    pub seq_offset: Option<u32>,
}

/// Show the tainted lines.
pub struct GetTaintedLinesRequest {
    pub session_id: Option<String>,
    pub offset: u32,
    pub limit: u32,
    pub full: bool,
    pub ignore_stack_ops: bool,
    pub addr_range: Option<String>,
    pub context_lines: u32,
}

/// How many tainted lines are shown where the request does not say.
pub fn default_taint_limit() -> (r: u32)
    ensures
        r == 50,
{
    50
}

/// What stands for a switch that is on unless the request turns it off.
pub fn default_true() -> (r: bool)
    ensures
        r,
{
    true
}

/// Show a part of the call tree.
pub struct GetCallTreeRequest {
    pub session_id: Option<String>,
    pub node_id: u32,
    pub depth: u32,
}

/// How many levels of the call tree are shown where the request does not say.
pub fn default_depth() -> (r: u32)
    ensures
        r == 1,
{
    1
}

/// How many functions are listed where the request does not say.
pub fn default_func_list_limit() -> (r: u32)
    ensures
        r == 30,
{
    30
}

/// List the strings that were seen in memory.
pub struct GetStringsRequest {
    pub session_id: Option<String>,
    pub min_len: u32,
    pub search: Option<String>,
    pub offset: u32,
    pub limit: u32,
}

/// How long a string must be to be listed where the request does not say.
pub fn default_min_str_len() -> (r: u32)
    ensures
        r == 4,
{
    4
}

/// How many strings are listed where the request does not say.
pub fn default_strings_limit() -> (r: u32)
    ensures
        r == 50,
{
    50
}

/// Trace where values came from.
pub struct TaintAnalysisRequest {
    pub session_id: Option<String>,
    pub from_specs: Vec<String>,
    pub data_only: bool,
    pub start_seq: Option<u32>,
    pub end_seq: Option<u32>,
    pub include_lines: u32,
    pub addr_range: Option<String>,
    pub ignore_stack_ops: bool,
}

/// How many tainted lines an analysis shows where the request does not say.
pub fn default_inline_lines() -> (r: u32)
    ensures
        r == 30,
{
    30
}

/// Look at one call, search the functions by name, or list them all.
pub struct AnalyzeFunctionRequest {
    pub session_id: Option<String>,
    pub node_id: Option<u32>,
    pub func_name: Option<String>,
    pub offset: u32,
    pub limit: u32,
}

/// Look for cryptographic algorithms.
pub struct AnalyzeCryptoRequest {
    pub session_id: Option<String>,
    pub context_lines: u32,
}

/// How many lines round a find are shown where the request does not say.
pub fn default_crypto_context() -> (r: u32)
    ensures
        r == 3,
{
    3
}

} // verus!
