//! The values that the engine takes and gives.

use vstd::prelude::*;

verus! {

/// A copy of an optional text.
pub fn clone_text(s: &Option<String>) -> (r: Option<String>)
    ensures
        r == *s,
{
    match s {
        Some(t) => Some(t.clone()),
        None => None,
    }
}

// ── Progress ──

/// What the engine is doing while an index is built.
#[derive(Clone, Copy)]
pub enum Phase {
    Scanning,
    Flattening,
    LoadingCache,
}

// ── Session ──

/// The tool that wrote a trace.
#[derive(Clone, Copy, Debug, PartialEq, Eq, Structural)]
pub enum TraceFormat {
    Unidbg,
    Gumtrace,
}

/// What is known of an open trace.
pub struct SessionInfo {
    pub session_id: String,
    pub file_path: String,
    pub file_size: u64,
    pub total_lines: u32,
    pub index_ready: bool,
    pub building: bool,
    pub has_slice_result: bool,
    pub trace_format: Option<TraceFormat>,
}

impl Clone for SessionInfo {
    fn clone(&self) -> (r: Self)
        ensures
            r == *self,
    {
        SessionInfo {
            session_id: self.session_id.clone(),
            file_path: self.file_path.clone(),
            file_size: self.file_size,
            total_lines: self.total_lines,
            index_ready: self.index_ready,
            building: self.building,
            has_slice_result: self.has_slice_result,
            trace_format: self.trace_format,
        }
    }
}

// ── Build ──

/// How an index is to be built.
pub struct BuildOptions {
    pub force_rebuild: bool,
    pub skip_strings: bool,
}

/// What building an index gave.
#[derive(Clone, Copy)]
pub struct BuildResult {
    pub total_lines: u32,
    pub has_string_index: bool,
    pub from_cache: bool,
}

// ── Browse ──

/// The call made at a line, as a client sees it.
pub struct CallInfoDto {
    pub func_name: String,
    pub is_jni: bool,
    pub summary: String,
    pub tooltip: String,
}

impl Clone for CallInfoDto {
    fn clone(&self) -> (r: Self)
        ensures
            r == *self,
    {
        CallInfoDto {
            func_name: self.func_name.clone(),
            is_jni: self.is_jni,
            summary: self.summary.clone(),
            tooltip: self.tooltip.clone(),
        }
    }
}

/// One line of a trace, taken apart.
pub struct TraceLine {
    pub seq: u32,
    pub address: String,
    pub so_offset: String,
    pub so_name: Option<String>,
    pub disasm: String,
    pub changes: String,
    pub reg_before: String,
    pub mem_rw: Option<String>,
    pub mem_addr: Option<String>,
    pub mem_size: Option<u8>,
    pub raw: String,
    pub call_info: Option<CallInfoDto>,
}

impl Clone for TraceLine {
    fn clone(&self) -> (r: Self)
        ensures
            r == *self,
    {
        TraceLine {
            seq: self.seq,
            address: self.address.clone(),
            so_offset: self.so_offset.clone(),
            so_name: clone_text(&self.so_name),
            disasm: self.disasm.clone(),
            changes: self.changes.clone(),
            reg_before: self.reg_before.clone(),
            mem_rw: clone_text(&self.mem_rw),
            mem_addr: clone_text(&self.mem_addr),
            mem_size: self.mem_size,
            raw: self.raw.clone(),
            call_info: match &self.call_info {
                Some(info) => Some(info.clone()),
                None => None,
            },
        }
    }
}

// ── Search ──

/// How a search is to be made.
pub struct SearchOptions {
    pub case_sensitive: bool,
    pub use_regex: bool,
    pub fuzzy: bool,
    pub max_results: Option<u32>,
    pub cache: bool,
    pub seq_offset: Option<usize>,
}

/// The line numbers that a search found.
pub struct SearchResultLite {
    pub match_seqs: Vec<u32>,
    pub total_scanned: u32,
    pub total_matches: u32,
    pub truncated: bool,
}

/// A line that a search found.
pub struct SearchMatch {
    pub seq: u32,
    pub address: String,
    pub so_offset: String,
    pub so_name: Option<String>,
    pub disasm: String,
    pub changes: String,
    pub reg_before: String,
    pub mem_rw: Option<String>,
    pub call_info: Option<CallInfoDto>,
    pub hidden_content: Option<String>,
}

// ── Slice ──

/// How a backward slice is to be made.
pub struct SliceOptions {
    pub start_seq: Option<u32>,
    pub end_seq: Option<u32>,
    pub data_only: bool,
}

/// What an export of a slice covers.
pub struct ExportConfig {
    pub from_specs: Vec<String>,
    pub start_seq: Option<u32>,
    pub end_seq: Option<u32>,
}

// ── Memory ──

/// The bytes at an address at one point of the execution.
pub struct MemorySnapshot {
    pub base_addr: String,
    pub bytes: Vec<u8>,
    pub known: Vec<bool>,
    pub length: u32,
}

/// One access to a memory address.
pub struct MemHistoryRecord {
    pub seq: u32,
    pub rw: String,
    pub data: String,
    pub size: u8,
    pub insn_addr: String,
    pub disasm: String,
}

/// How often a memory address was accessed.
pub struct MemHistoryMeta {
    pub total: usize,
    pub center_index: usize,
    pub samples: Vec<MemHistoryRecord>,
}

// ── Call Tree ──

/// One function call in the tree of calls.
pub struct CallTreeNodeDto {
    pub id: u32,
    pub func_addr: String,
    pub func_name: Option<String>,
    pub entry_seq: u32,
    pub exit_seq: u32,
    pub parent_id: Option<u32>,
    pub children_ids: Vec<u32>,
    pub line_count: u32,
}

// ── Strings ──

/// Which strings are asked for.
pub struct StringQueryOptions {
    pub min_len: u32,
    pub offset: u32,
    pub limit: u32,
    pub search: Option<String>,
}

/// A string seen in memory.
pub struct StringRecordDto {
    pub idx: u32,
    pub addr: String,
    pub content: String,
    pub encoding: String,
    pub byte_len: u32,
    pub seq: u32,
    pub xref_count: u32,
    pub rw: String,
}

/// A page of strings, and how many there are in all.
pub struct StringsResult {
    pub strings: Vec<StringRecordDto>,
    pub total: u32,
}

/// An access to a string.
pub struct StringXRef {
    pub seq: u32,
    pub rw: String,
    pub insn_addr: String,
    pub disasm: String,
}

// ── Dep Tree ──

/// How a dependency tree is to be built.
pub struct DepTreeOptions {
    pub data_only: bool,
    pub max_nodes: Option<u32>,
}

// ── DEF/USE ──

/// Where a register was set, used and set again.
pub struct DefUseChain {
    pub def_seq: Option<u32>,
    pub use_seqs: Vec<u32>,
    pub redefined_seq: Option<u32>,
}

// ── Functions ──

/// One call of a function.
pub struct FunctionCallOccurrence {
    pub seq: u32,
    pub summary: String,
}

/// A function and its calls.
pub struct FunctionCallEntry {
    pub func_name: String,
    pub is_jni: bool,
    pub occurrences: Vec<FunctionCallOccurrence>,
}

/// The functions that were called.
pub struct FunctionCallsResult {
    pub functions: Vec<FunctionCallEntry>,
    pub total_calls: usize,
}

// ── Cache ──

/// Where the cache is and how large.
pub struct CacheInfo {
    pub path: String,
    pub size: u64,
}

/// What clearing the cache removed.
pub struct ClearResult {
    pub files_deleted: u32,
    pub bytes_freed: u64,
}

} // verus!
