# trace_tools

A library for querying recorded ARM64 instruction traces: searching them, paging through what was
found, and preparing the answers of the tools and commands that work on them. The functions of the
library are verified with Verus against the contracts that stand above them. What is believed without
proof is what outside code does:

- `LinePattern::compile` and `LinePattern::is_match` (`src/pattern.rs`): `Regex::new` and
  `Regex::is_match` of the `regex` crate, whose results go by the names `regex_error` and
  `regex_finds`.
- `search_chunks` (`src/scan.rs`): the parallel iterators of `rayon`.
- `memchr::memchr` (`src/scan.rs`).
- `str::to_lowercase` of std (`src/text.rs`), whose result goes by the name `lowercase`.

- `src/text.rs`, `src/ranges.rs`: words, numbers, addresses and ranges as requests write them.
- `src/matching.rs`, `src/pattern.rs`: what a search looks for, and whether a text holds it.
- `src/scan.rs`, `src/index.rs`: the lines of a trace, and the search over them, in one piece or in
  chunks side by side.
- `src/render.rs`: how a found line is shown, and which part of it is hidden.
- `src/engine.rs`: open traces, searches that are kept, and their pages.
- `src/api_types.rs`, `src/requests.rs`, `src/error.rs`: the values that go in and out.
- `src/tools/`: the tools, each as the decisions between two calls of the engine.
- `src/commands.rs`: the commands of the desktop shell.

Statements about the library as a whole are the proof functions whose names start with `law_`.

`app/` holds the MCP server and the desktop shell around the library: JSON, threads, files. It reads
and analyses traces through the trait `TraceServices`.
