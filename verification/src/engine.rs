//! Open traces and the searches made in them.

use std::collections::{HashMap, HashSet};

use vstd::prelude::*;
use vstd::slice::slice_subrange;
use vstd::string::*;
use vstd::utf8::encode_utf8;

use crate::api_types::{SearchMatch, SearchOptions, SearchResultLite, TraceFormat, TraceLine};
use crate::error::{ErrorView, TraceError};
use crate::index::{has_lines, law_data_has_lines, law_line_feeds_count_the_lines, line_feeds, plan_chunks, LineIndex};
use crate::matching::{found_in, parse_search_mode, search_mode, ModeView, SearchMode};
use crate::render::{match_of, search_match, CallAnnotation};
use crate::scan::{find_line_end, first_of, hits, law_hits_are_the_found_lines, law_when_a_line_is_found, lemma_filter_ends, lemma_filter_step, lemma_hits_len, line_end, line_from, line_is_hit, line_start, number_set, search_chunk_seqs, search_in_chunks, ScanView};

verus! {

/// How many line numbers the first page of a search holds.
pub const SEARCH_FIRST_PAGE_SIZE: usize = 5000;

/// Every how many lines the index of a trace keeps the place of one.
const INDEX_STRIDE: u32 = 256;

/// An open trace.
pub struct SessionHandle {
    session_id: String,
    /// The bytes of the trace file.
    data: Vec<u8>,
    /// Where the lines start, once that is known.
    lidx_store: Option<LineIndex>,
    trace_format: TraceFormat,
    /// The texts, by line number, in which a search looks for calls.
    call_search_texts: HashMap<u32, String>,
    /// The calls, by line number.
    call_annotations: HashMap<u32, CallAnnotation>,
    /// The numbers of the lines that belong to the call before them.
    consumed_seqs: Vec<u32>,
    /// The number of the last search that was kept, and what it found.
    search_cache: (u64, Vec<u32>),
}

/// An open trace, in mathematical terms.
#[verifier::ext_equal]
pub struct SessionView {
    pub session_id: Seq<char>,
    /// The bytes of the trace file.
    pub data: Seq<u8>,
    /// How many lines the trace has, once they are indexed.
    pub indexed: Option<u32>,
    pub trace_format: TraceFormat,
    /// The texts, by line number, in which a search looks for calls.
    pub call_search_texts: Map<u32, String>,
    /// The calls, by line number.
    pub call_annotations: Map<u32, CallAnnotation>,
    /// The numbers of the lines that belong to the call before them.
    pub consumed: Set<u32>,
    /// The number of the last search that was kept.
    pub generation: u64,
    /// What the last search that was kept found.
    pub kept: Seq<u32>,
}

impl View for SessionHandle {
    type V = SessionView;

    closed spec fn view(&self) -> SessionView {
        SessionView {
            session_id: self.session_id@,
            data: self.data@,
            indexed: match self.lidx_store {
                Some(index) => Some(index.lines()),
                None => None,
            },
            trace_format: self.trace_format,
            call_search_texts: self.call_search_texts@,
            call_annotations: self.call_annotations@,
            consumed: self.consumed_seqs@.to_set(),
            generation: self.search_cache.0,
            kept: self.search_cache.1@,
        }
    }
}

/// How many lines the index of a session counts.
pub open spec fn session_lines(s: SessionView) -> nat {
    match s.indexed {
        Some(n) => n as nat,
        None => 0,
    }
}

/// The scan of a session for `mode`.
pub open spec fn session_scan(s: SessionView, mode: ModeView) -> ScanView {
    ScanView {
        data: s.data,
        mode,
        consumed: s.consumed,
        call_texts: s.call_search_texts,
    }
}

/// The numbers of the lines of a session that a search for `mode` finds, in order.
pub open spec fn session_hits(s: SessionView, mode: ModeView) -> Seq<u32> {
    hits(session_scan(s, mode), 0, 0, session_lines(s))
}

/// What indexing a trace says of its lines: how many there are, unless there are more than a
/// `u32` can number.
pub open spec fn counts_lines(indexed: Option<u32>, data: Seq<u8>) -> bool {
    match indexed {
        Some(n) => has_lines(data, n as int),
        None => forall|n: int| has_lines(data, n) ==> n > u32::MAX,
    }
}

impl SessionHandle {
    /// The line index, where there is one, is that of the data, and what is kept of a search are
    /// no more numbers than there can be lines.
    pub closed spec fn well_formed(&self) -> bool {
        &&& self.lidx_store matches Some(index) ==> index.well_formed(self.data@)
        &&& self.search_cache.1@.len() <= u32::MAX
    }

    /// A trace that was opened and not indexed yet.
    pub fn new(session_id: String, data: Vec<u8>, trace_format: TraceFormat) -> (s: SessionHandle)
        ensures
            s.well_formed(),
            s@ == (SessionView {
                session_id: session_id@,
                data: data@,
                indexed: None,
                trace_format,
                call_search_texts: Map::empty(),
                call_annotations: Map::empty(),
                consumed: Set::empty(),
                generation: 0,
                kept: Seq::empty(),
            }),
    {
        SessionHandle {
            session_id,
            data,
            lidx_store: None,
            trace_format,
            call_search_texts: HashMap::new(),
            call_annotations: HashMap::new(),
            consumed_seqs: Vec::new(),
            search_cache: (0, Vec::new()),
        }
    }

    /// Indexes the lines of the trace, and takes over what is known of its calls.
    pub fn index(
        &mut self,
        trace_format: TraceFormat,
        call_search_texts: HashMap<u32, String>,
        call_annotations: HashMap<u32, CallAnnotation>,
        consumed_seqs: Vec<u32>,
    )
        requires
            old(self).well_formed(),
        ensures
            final(self).well_formed(),
            counts_lines(final(self)@.indexed, old(self)@.data),
            final(self)@ == (SessionView {
                indexed: final(self)@.indexed,
                trace_format,
                call_search_texts: call_search_texts@,
                call_annotations: call_annotations@,
                consumed: consumed_seqs@.to_set(),
                ..old(self)@
            }),
    {
        self.lidx_store = LineIndex::build(self.data.as_slice(), INDEX_STRIDE);
        self.trace_format = trace_format;
        self.call_search_texts = call_search_texts;
        self.call_annotations = call_annotations;
        self.consumed_seqs = consumed_seqs;
    }

    /// How many lines the trace has; none before it is indexed.
    pub fn total_lines(&self) -> (n: u32)
        ensures
            n == session_lines(self@),
    {
        match &self.lidx_store {
            Some(index) => index.total_lines(),
            None => 0,
        }
    }

    /// The numbers of the lines to pass over, as a set.
    pub fn consumed_set(&self) -> (r: HashSet<u32>)
        ensures
            r@ == self@.consumed,
    {
        number_set(&self.consumed_seqs)
    }

    /// Collects the numbers of the lines that hold what `mode` looks for, at most `max_results`
    /// of them, and counts them all. A long trace is searched in as many pieces as there are
    /// processors.
    pub fn search_lines(&self, mode: &SearchMode, max_results: usize, num_cpus: usize) -> (r: (
        Vec<u32>,
        u32,
    ))
        requires
            self.well_formed(),
        ensures
            r.1 == session_hits(self@, mode@).len(),
            r.0@ == first_of(session_hits(self@, mode@), max_results as int),
    {
        let total_lines: u32 = self.total_lines();
        let consumed = self.consumed_set();
        if num_cpus > 1 && total_lines > 10000 {
            if let Some(index) = &self.lidx_store {
                let chunks = plan_chunks(index, self.data.as_slice(), num_cpus);
                return search_in_chunks(
                    self.data.as_slice(),
                    total_lines,
                    &chunks,
                    mode,
                    &consumed,
                    &self.call_search_texts,
                    max_results,
                );
            }
        }
        search_chunk_seqs(
            self.data.as_slice(),
            0,
            total_lines,
            0,
            mode,
            &consumed,
            &self.call_search_texts,
            max_results,
        )
    }
}

/// `sessions[i]` is the first session with the id `id`.
pub open spec fn is_session(sessions: Seq<SessionView>, id: Seq<char>, i: int) -> bool {
    &&& 0 <= i < sessions.len()
    &&& sessions[i].session_id == id
    &&& forall|j: int| 0 <= j < i ==> (#[trigger] sessions[j]).session_id != id
}

/// The place of the session with the id `id`.
pub open spec fn session_place(sessions: Seq<SessionView>, id: Seq<char>) -> Option<int> {
    if exists|i: int| is_session(sessions, id, i) {
        Some(choose|i: int| is_session(sessions, id, i))
    } else {
        None
    }
}

/// The sessions once the one at `i` keeps search number `generation`, which found `seqs`.
pub open spec fn with_kept(
    sessions: Seq<SessionView>,
    i: int,
    generation: u64,
    seqs: Seq<u32>,
) -> Seq<SessionView> {
    sessions.update(i, SessionView { generation, kept: seqs, ..sessions[i] })
}

/// A search with these options keeps all that it found and gives the first page of it.
pub open spec fn is_paginated(options: SearchOptions) -> bool {
    options.cache || options.max_results is None
}

/// How many line numbers a search with these options gives back at most.
pub open spec fn result_limit(options: SearchOptions) -> int {
    if is_paginated(options) {
        SEARCH_FIRST_PAGE_SIZE as int
    } else {
        options.max_results.unwrap() as int
    }
}

/// `count` entries of `seqs` from `offset` on, as far as there are any.
pub open spec fn page_of<T>(seqs: Seq<T>, offset: int, count: int) -> Seq<T> {
    let start = if offset < seqs.len() {
        offset
    } else {
        seqs.len() as int
    };
    let end = if start + count < seqs.len() {
        start + count
    } else {
        seqs.len() as int
    };
    seqs.subrange(start, end)
}

/// The open traces.
pub struct TraceEngine {
    sessions: Vec<SessionHandle>,
}

impl View for TraceEngine {
    type V = Seq<SessionView>;

    closed spec fn view(&self) -> Seq<SessionView> {
        Seq::new(self.sessions@.len(), |i: int| self.sessions@[i]@)
    }
}

/// What a search of a session finds, or why it cannot be made. An empty query finds nothing.
pub open spec fn search_found(
    sessions: Seq<SessionView>,
    session_id: Seq<char>,
    query: Seq<char>,
    options: SearchOptions,
) -> Result<Seq<u32>, ErrorView> {
    match session_place(sessions, session_id) {
        None => Err(ErrorView::SessionNotFound(session_id)),
        Some(i) => if query.len() == 0 {
            Ok(Seq::empty())
        } else {
            match search_mode(query, options.case_sensitive, options.use_regex, options.fuzzy) {
                Err(v) => Err(v),
                Ok(mode) => Ok(session_hits(sessions[i], mode)),
            }
        },
    }
}

/// How many lines a search of a session looks at.
pub open spec fn search_scanned(
    sessions: Seq<SessionView>,
    session_id: Seq<char>,
    query: Seq<char>,
) -> nat {
    match session_place(sessions, session_id) {
        Some(i) if query.len() > 0 => session_lines(sessions[i]),
        _ => 0,
    }
}

/// The number of the kept search after number `g`. Behind the greatest number they start again.
pub open spec fn next_generation(g: u64) -> u64 {
    if g == u64::MAX {
        0
    } else {
        (g + 1) as u64
    }
}

/// What a search gives back.
pub open spec fn is_search_answer(
    r: Result<SearchResultLite, TraceError>,
    sessions: Seq<SessionView>,
    session_id: Seq<char>,
    query: Seq<char>,
    options: SearchOptions,
) -> bool {
    match search_found(sessions, session_id, query, options) {
        Err(v) => r matches Err(e) && e@ == v,
        Ok(found) => {
            &&& r matches Ok(res)
            &&& res.match_seqs@ == first_of(found, result_limit(options))
            &&& res.total_scanned == search_scanned(sessions, session_id, query)
            &&& res.total_matches == found.len()
            &&& res.truncated == (found.len() > result_limit(options))
        },
    }
}

/// The sessions after a search. An empty query makes the session forget the search that it kept.
/// A search that is to be kept takes the place of the one kept before and the next number. Any
/// other changes nothing, and neither does one that cannot be made.
pub open spec fn after_search(
    sessions: Seq<SessionView>,
    session_id: Seq<char>,
    query: Seq<char>,
    options: SearchOptions,
) -> Seq<SessionView> {
    match (
        session_place(sessions, session_id),
        search_found(sessions, session_id, query, options),
    ) {
        (Some(i), Ok(found)) => if query.len() == 0 {
            with_kept(sessions, i, 0, Seq::empty())
        } else if is_paginated(options) {
            with_kept(sessions, i, next_generation(sessions[i].generation), found)
        } else {
            sessions
        },
        _ => sessions,
    }
}

impl TraceEngine {
    /// Every session is well formed.
    pub closed spec fn well_formed(&self) -> bool {
        forall|i: int| 0 <= i < self.sessions@.len() ==> (#[trigger] self.sessions@[i]).well_formed()
    }

    /// No trace is open.
    pub fn new() -> (e: TraceEngine)
        ensures
            e.well_formed(),
            e@ == Seq::<SessionView>::empty(),
    {
        TraceEngine { sessions: Vec::new() }
    }

    /// Takes in a trace that was opened.
    pub fn open_session(&mut self, session: SessionHandle)
        requires
            old(self).well_formed(),
            session.well_formed(),
        ensures
            final(self).well_formed(),
            final(self)@ == old(self)@.push(session@),
    {
        self.sessions.push(session);
        assert(self@ =~= old(self)@.push(session@));
    }

    /// Closes the trace with the id `session_id`.
    pub fn close_session(&mut self, session_id: &str)
        requires
            old(self).well_formed(),
        ensures
            final(self).well_formed(),
            final(self)@ == old(self)@.filter(|s: SessionView| s.session_id != session_id@),
    {
        let ghost all = self@;
        let ghost keep = |s: SessionView| s.session_id != session_id@;
        let id = session_id.to_owned();
        let mut open: Vec<SessionHandle> = Vec::new();
        std::mem::swap(&mut open, &mut self.sessions);
        let ghost handles = open@;
        assert(self@ =~= Seq::<SessionView>::empty());
        proof {
            lemma_filter_ends(all, keep);
        }
        for session in it: open.into_iter()
            invariant
                it.seq() == handles,
                all.len() == handles.len(),
                forall|i: int| 0 <= i < handles.len() ==> #[trigger] all[i] == handles[i]@,
                forall|i: int| 0 <= i < handles.len() ==> (#[trigger] handles[i]).well_formed(),
                keep == (|s: SessionView| s.session_id != session_id@),
                id@ == session_id@,
                self.well_formed(),
                self@ == all.take(it.index() as int).filter(keep),
        {
            let ghost before = self@;
            proof {
                lemma_filter_step(all, keep, it.index() as int);
                assert(all[it.index() as int] == session@);
                assert(handles[it.index() as int].well_formed());
            }
            if session.session_id != id {
                self.sessions.push(session);
                assert(self@ =~= before.push(session@));
            }
        }
    }

    /// The place of the session with the id `session_id`.
    pub fn get_handle(&self, session_id: &str) -> (r: Result<usize, TraceError>)
        ensures
            match r {
                Ok(i) => session_place(self@, session_id@) == Some(i as int) && i < self@.len(),
                Err(e) => session_place(self@, session_id@) is None && e@
                    == ErrorView::SessionNotFound(session_id@),
            },
    {
        let id = session_id.to_owned();
        let mut i: usize = 0;
        while i < self.sessions.len()
            invariant
                id@ == session_id@,
                i <= self.sessions@.len(),
                forall|j: int| 0 <= j < i ==> (#[trigger] self@[j]).session_id != session_id@,
            decreases self.sessions@.len() - i,
        {
            if self.sessions[i].session_id == id {
                assert(is_session(self@, session_id@, i as int));
                proof {
                    lemma_place_unique(self@, session_id@);
                }
                return Ok(i);
            }
            assert(self@[i as int].session_id != session_id@);
            i = i + 1;
        }
        Err(TraceError::SessionNotFound(id))
    }

    /// Indexes the lines of an open trace, and takes over what is known of its calls.
    pub fn index_session(
        &mut self,
        session_id: &str,
        trace_format: TraceFormat,
        call_search_texts: HashMap<u32, String>,
        call_annotations: HashMap<u32, CallAnnotation>,
        consumed_seqs: Vec<u32>,
    ) -> (r: Result<(), TraceError>)
        requires
            old(self).well_formed(),
        ensures
            final(self).well_formed(),
            match session_place(old(self)@, session_id@) {
                None => {
                    &&& r matches Err(e)
                    &&& e@ == ErrorView::SessionNotFound(session_id@)
                    &&& final(self)@ == old(self)@
                },
                Some(i) => {
                    &&& r is Ok
                    &&& counts_lines(final(self)@[i].indexed, old(self)@[i].data)
                    &&& final(self)@ == old(self)@.update(
                        i,
                        SessionView {
                            indexed: final(self)@[i].indexed,
                            trace_format,
                            call_search_texts: call_search_texts@,
                            call_annotations: call_annotations@,
                            consumed: consumed_seqs@.to_set(),
                            ..old(self)@[i]
                        },
                    )
                },
            },
    {
        match self.get_handle(session_id) {
            Ok(i) => {
                self.sessions[i].index(
                    trace_format,
                    call_search_texts,
                    call_annotations,
                    consumed_seqs,
                );
                assert(self@ =~= old(self)@.update(i as int, self.sessions@[i as int]@));
                Ok(())
            },
            Err(e) => Err(e),
        }
    }

    /// Searches a session. `num_cpus` is the number of processors to use.
    pub fn search(
        &mut self,
        session_id: &str,
        query: &str,
        options: SearchOptions,
        num_cpus: usize,
    ) -> (r: Result<SearchResultLite, TraceError>)
        requires
            old(self).well_formed(),
        ensures
            final(self).well_formed(),
            is_search_answer(r, old(self)@, session_id@, query@, options),
            final(self)@ == after_search(old(self)@, session_id@, query@, options),
    {
        let place: usize = match self.get_handle(session_id) {
            Ok(i) => i,
            Err(e) => {
                return Err(e);
            },
        };
        if query.is_empty() {
            self.sessions[place].search_cache = (0, Vec::new());
            assert(self@ =~= after_search(old(self)@, session_id@, query@, options));
            return Ok(
                SearchResultLite {
                    match_seqs: Vec::new(),
                    total_scanned: 0,
                    total_matches: 0,
                    truncated: false,
                },
            );
        }
        let mode = match parse_search_mode(
            query,
            options.case_sensitive,
            options.use_regex,
            options.fuzzy,
        ) {
            Ok(mode) => mode,
            Err(e) => {
                return Err(e);
            },
        };
        let paginated: bool = options.cache || options.max_results.is_none();
        let max_results: usize = match options.max_results {
            Some(n) if !paginated => n as usize,
            _ => usize::MAX,
        };
        assert(self@[place as int] == self.sessions@[place as int]@);
        let ghost found = session_hits(self@[place as int], mode@);
        let total_lines: u32 = self.sessions[place].total_lines();
        proof {
            let s = self@[place as int];
            lemma_hits_len(session_scan(s, mode@), 0, 0, session_lines(s));
        }
        let (all_seqs, total_matches): (Vec<u32>, u32) = self.sessions[place].search_lines(
            &mode,
            max_results,
            num_cpus,
        );
        if paginated {
            assert(all_seqs@ == found);
            let first_page = copy_page(&all_seqs, 0, SEARCH_FIRST_PAGE_SIZE);
            let generation: u64 = self.sessions[place].search_cache.0.wrapping_add(1);
            self.sessions[place].search_cache = (generation, all_seqs);
            assert(first_page@ =~= first_of(found, SEARCH_FIRST_PAGE_SIZE as int));
            assert(self@ =~= after_search(old(self)@, session_id@, query@, options));
            Ok(
                SearchResultLite {
                    match_seqs: first_page,
                    total_scanned: total_lines,
                    total_matches,
                    truncated: total_matches as usize > SEARCH_FIRST_PAGE_SIZE,
                },
            )
        } else {
            Ok(
                SearchResultLite {
                    match_seqs: all_seqs,
                    total_scanned: total_lines,
                    total_matches,
                    truncated: total_matches as usize > max_results,
                },
            )
        }
    }

    /// Gives a piece of what the last kept search found, with the number of that search.
    pub fn fetch_search_page(&self, session_id: &str, offset: u32, count: u32) -> (r: Result<
        (u64, Vec<u32>),
        TraceError,
    >)
        ensures
            match session_place(self@, session_id@) {
                None => r matches Err(e) && e@ == ErrorView::SessionNotFound(session_id@),
                Some(i) => {
                    &&& r matches Ok(page)
                    &&& page.0 == self@[i].generation
                    &&& page.1@ == page_of(self@[i].kept, offset as int, count as int)
                },
            },
    {
        let place: usize = match self.get_handle(session_id) {
            Ok(i) => i,
            Err(e) => {
                return Err(e);
            },
        };
        assert(self@[place as int] == self.sessions@[place as int]@);
        let cache = &self.sessions[place].search_cache;
        Ok((cache.0, copy_page(&cache.1, offset as usize, count as usize)))
    }

    /// What a session keeps of a search are no more numbers than there can be lines.
    pub proof fn lemma_kept_fits(&self)
        requires
            self.well_formed(),
        ensures
            forall|i: int| 0 <= i < self@.len() ==> (#[trigger] self@[i]).kept.len() <= u32::MAX,
    {
        assert forall|i: int| 0 <= i < self@.len() implies (#[trigger] self@[i]).kept.len()
            <= u32::MAX by {
            assert(self.sessions@[i].well_formed());
        }
    }
}

/// Line number `seq` of a session is one that a client may be shown: the trace has it, and it
/// does not belong to the call before it.
pub open spec fn is_shown(s: SessionView, seq: u32) -> bool {
    !s.consumed.contains(seq) && seq < session_lines(s)
}

/// `parse` can be called with any line.
pub open spec fn takes_any_line<F: Fn(TraceFormat, u32, &[u8]) -> Option<TraceLine>>(
    parse: F,
) -> bool {
    forall|format: TraceFormat, seq: u32, line: &[u8]| #[trigger]
        call_requires(parse, (format, seq, line))
}

/// Whenever `parse` is called with a line, it takes it apart as `reads` says, or gives nothing
/// where `reads` does.
pub open spec fn reads_as<F: Fn(TraceFormat, u32, &[u8]) -> Option<TraceLine>>(
    parse: F,
    reads: spec_fn(TraceFormat, u32, Seq<u8>) -> Option<TraceLine>,
) -> bool {
    forall|format: TraceFormat, seq: u32, line: &[u8], r: Option<TraceLine>| #[trigger]
        call_ensures(parse, (format, seq, line), r) ==> r == reads(format, seq, line@)
}

/// The bytes of line number `seq` of a session.
pub open spec fn line_bytes(s: SessionView, seq: u32) -> Seq<u8> {
    line_from(s.data, line_start(s.data, 0, seq as nat))
}

/// The first `n` of `seqs` as a client sees them: those that may be shown and whose line can be
/// taken apart.
pub open spec fn shown_matches(
    s: SessionView,
    mode: ModeView,
    seqs: Seq<u32>,
    reads: spec_fn(TraceFormat, u32, Seq<u8>) -> Option<TraceLine>,
    n: nat,
) -> Seq<SearchMatch>
    decreases n,
{
    if n == 0 {
        Seq::empty()
    } else {
        let front = shown_matches(s, mode, seqs, reads, (n - 1) as nat);
        let seq = seqs[n - 1];
        match reads(s.trace_format, seq, line_bytes(s, seq)) {
            Some(line) if is_shown(s, seq) => front.push(
                match_of(
                    mode,
                    line,
                    if s.call_annotations.contains_key(seq) {
                        Some(s.call_annotations[seq])
                    } else {
                        None
                    },
                    if s.call_search_texts.contains_key(seq) {
                        Some(s.call_search_texts[seq])
                    } else {
                        None
                    },
                ),
            ),
            _ => front,
        }
    }
}

impl TraceEngine {
    /// Shows the lines with the numbers `seqs`. `parse` takes a line of a trace apart, given the
    /// format of the trace and the number of the line, or gives nothing where that cannot be done.
    pub fn get_search_matches<F: Fn(TraceFormat, u32, &[u8]) -> Option<TraceLine>>(
        &self,
        session_id: &str,
        query: &str,
        seqs: &[u32],
        case_sensitive: bool,
        use_regex: bool,
        fuzzy: bool,
        parse: &F,
    ) -> (r: Result<Vec<SearchMatch>, TraceError>)
        requires
            self.well_formed(),
            takes_any_line(*parse),
        ensures
            if seqs@.len() == 0 {
                r matches Ok(ms) && ms@.len() == 0
            } else {
                match search_mode(query@, case_sensitive, use_regex, fuzzy) {
                    Err(v) => r matches Err(e) && e@ == v,
                    Ok(mode) => match session_place(self@, session_id@) {
                        None => r matches Err(e) && e@ == ErrorView::SessionNotFound(session_id@),
                        Some(i) => if self@[i].indexed is None {
                            r matches Err(e) && e@ == ErrorView::Internal(
                                "Line index not available"@,
                            )
                        } else {
                            &&& r matches Ok(ms)
                            &&& ms@.len() <= seqs@.len()
                            &&& forall|
                                reads: spec_fn(TraceFormat, u32, Seq<u8>) -> Option<TraceLine>,
                            | #[trigger]
                                reads_as(*parse, reads) ==> ms@ == shown_matches(
                                    self@[i],
                                    mode,
                                    seqs@,
                                    reads,
                                    seqs@.len(),
                                )
                        },
                    },
                }
            },
    {
        if seqs.len() == 0 {
            return Ok(Vec::new());
        }
        let mode = match parse_search_mode(query, case_sensitive, use_regex, fuzzy) {
            Ok(mode) => mode,
            Err(e) => {
                return Err(e);
            },
        };
        let place: usize = match self.get_handle(session_id) {
            Ok(i) => i,
            Err(e) => {
                return Err(e);
            },
        };
        let session = &self.sessions[place];
        assert(self@[place as int] == session@);
        match &session.lidx_store {
            None => Err(TraceError::Internal("Line index not available".to_owned())),
            Some(index) => Ok(session.show_matches(index, &mode, seqs, parse)),
        }
    }
}

impl SessionHandle {
    /// Shows the lines with the numbers `seqs` that a search for `mode` found. `index` is the
    /// index of the session.
    fn show_matches<F: Fn(TraceFormat, u32, &[u8]) -> Option<TraceLine>>(
        &self,
        index: &LineIndex,
        mode: &SearchMode,
        seqs: &[u32],
        parse: &F,
    ) -> (matches: Vec<SearchMatch>)
        requires
            self.well_formed(),
            self.lidx_store == Some(*index),
            takes_any_line(*parse),
        ensures
            matches@.len() <= seqs@.len(),
            forall|reads: spec_fn(TraceFormat, u32, Seq<u8>) -> Option<TraceLine>| #[trigger]
                reads_as(*parse, reads) ==> matches@ == shown_matches(
                    self@,
                    mode@,
                    seqs@,
                    reads,
                    seqs@.len(),
                ),
    {
        let consumed = self.consumed_set();
        let data = self.data.as_slice();
        let mut matches: Vec<SearchMatch> = Vec::new();
        let mut k: usize = 0;
        while k < seqs.len()
            invariant
                self.lidx_store == Some(*index),
                index.well_formed(data@),
                data@ == self.data@,
                consumed@ == self.consumed_seqs@.to_set(),
                takes_any_line(*parse),
                k <= seqs@.len(),
                matches@.len() <= k,
                forall|reads: spec_fn(TraceFormat, u32, Seq<u8>) -> Option<TraceLine>| #[trigger]
                    reads_as(*parse, reads) ==> matches@ == shown_matches(
                        self@,
                        mode@,
                        seqs@,
                        reads,
                        k as nat,
                    ),
            decreases seqs@.len() - k,
        {
            let seq: u32 = seqs[k];
            let offset: Option<usize> = if consumed.contains(&seq) {
                None
            } else {
                index.line_byte_offset(data, seq)
            };
            assert(offset is Some == is_shown(self@, seq));
            if let Some(start) = offset {
                let line = slice_subrange(data, start, find_line_end(data, start));
                assert(line@ =~= line_bytes(self@, seq));
                let parsed = parse(self.trace_format, seq, line);
                assert forall|
                    reads: spec_fn(TraceFormat, u32, Seq<u8>) -> Option<TraceLine>,
                | #[trigger] reads_as(*parse, reads) implies reads(
                    self.trace_format,
                    seq,
                    line_bytes(self@, seq),
                ) == parsed by {
                    assert(call_ensures(*parse, (self.trace_format, seq, line), parsed));
                }
                if let Some(parsed) = parsed {
                    matches.push(
                        search_match(
                            mode,
                            &parsed,
                            self.call_annotations.get(&seq),
                            self.call_search_texts.get(&seq),
                        ),
                    );
                }
            }
            k = k + 1;
        }
        matches
    }
}

/// Copies `count` entries of `seqs` from `offset` on, as far as there are any.
pub fn copy_page(seqs: &Vec<u32>, offset: usize, count: usize) -> (r: Vec<u32>)
    ensures
        r@ == page_of(seqs@, offset as int, count as int),
{
    let n: usize = seqs.len();
    let start: usize = if offset < n {
        offset
    } else {
        n
    };
    let end: usize = if count < n - start {
        start + count
    } else {
        n
    };
    vstd::slice::slice_to_vec(slice_subrange(seqs.as_slice(), start, end))
}

/// A search finds the number of a line exactly if the trace has the line, the line does not
/// belong to the call before it, and the line or its call text holds what is looked for. What it
/// finds is in ascending order without repetition, and each line found is one that may be shown.
pub proof fn law_search_finds_the_matching_lines(s: SessionView, mode: ModeView)
    ensures
        session_hits(s, mode).len() <= session_lines(s),
        forall|i: int, j: int|
            0 <= i < j < session_hits(s, mode).len() ==> session_hits(s, mode)[i] < session_hits(
                s,
                mode,
            )[j],
        forall|seq: u32| #[trigger]
            session_hits(s, mode).contains(seq) <==> seq < session_lines(s) && line_is_hit(
                session_scan(s, mode),
                0,
                seq as nat,
                seq as int,
            ),
        forall|seq: u32| #[trigger]
            session_hits(s, mode).contains(seq) ==> is_shown(s, seq),
{
    law_hits_are_the_found_lines(session_scan(s, mode), 0, 0, session_lines(s));
}

/// A search says that it held back some of what it found exactly if it did.
pub proof fn law_truncated_means_held_back(found: Seq<u32>, options: SearchOptions)
    ensures
        found.len() > result_limit(options) <==> first_of(found, result_limit(options)).len()
            < found.len(),
{
}

/// A page and the page after it are one longer page.
pub proof fn law_pages_join<T>(found: Seq<T>, offset: int, first: int, second: int)
    requires
        0 <= offset,
        0 <= first,
        0 <= second,
    ensures
        page_of(found, offset, first) + page_of(found, offset + first, second) == page_of(
            found,
            offset,
            first + second,
        ),
{
    assert(page_of(found, offset, first) + page_of(found, offset + first, second) =~= page_of(
        found,
        offset,
        first + second,
    ));
}

/// What a kept search gives at once is the first page of what it keeps, and one page from the
/// start that is long enough is all of it.
pub proof fn law_first_page_is_a_page<T>(found: Seq<T>, count: int)
    requires
        0 <= count,
    ensures
        page_of(found, 0, count) == first_of(found, count),
        count >= found.len() ==> page_of(found, 0, count) == found,
{
    assert(page_of(found, 0, count) =~= first_of(found, count));
}

/// After a search was kept in a session, every session is found under its id as before, that one
/// keeps what was found, and the others are as they were.
pub proof fn law_kept_search_is_read_back(
    sessions: Seq<SessionView>,
    session_id: Seq<char>,
    generation: u64,
    found: Seq<u32>,
)
    requires
        session_place(sessions, session_id) is Some,
    ensures
        ({
            let i = session_place(sessions, session_id).unwrap();
            let after = with_kept(sessions, i, generation, found);
            &&& forall|id: Seq<char>| #[trigger]
                session_place(after, id) == session_place(sessions, id)
            &&& after[i].generation == generation
            &&& after[i].kept == found
            &&& forall|id: Seq<char>|
                id != session_id && session_place(sessions, id) is Some
                    ==> #[trigger] after[session_place(sessions, id).unwrap()]
                    == sessions[session_place(sessions, id).unwrap()]
        }),
{
    let (a, p) = (sessions, session_place(sessions, session_id).unwrap());
    lemma_place_unique(a, session_id);
    let b = with_kept(a, p, generation, found);
    assert forall|j: int|
        #![trigger a[j]]
        #![trigger b[j]]
        0 <= j < a.len() implies b[j].session_id == a[j].session_id by {
        assert(j != p ==> b[j] == a[j]);
    }
    assert forall|id: Seq<char>, i: int| #[trigger] is_session(b, id, i) == is_session(
        a,
        id,
        i,
    ) by {}
    assert forall|id: Seq<char>| #[trigger] session_place(b, id) == session_place(a, id) by {
        lemma_place_unique(a, id);
        lemma_place_unique(b, id);
        if exists|i: int| is_session(a, id, i) {
            let i = choose|i: int| is_session(a, id, i);
            assert(is_session(b, id, i));
        }
        if exists|i: int| is_session(b, id, i) {
            let i = choose|i: int| is_session(b, id, i);
            assert(is_session(a, id, i));
        }
    }
    assert forall|id: Seq<char>| id != session_id && session_place(a, id) is Some implies
        #[trigger] b[session_place(a, id).unwrap()] == a[session_place(a, id).unwrap()] by {
        lemma_place_unique(a, id);
    }
}

/// A search that cannot be made, or that is not to be kept, leaves every session as it was, so
/// that every later page is the same.
pub proof fn law_unkept_search_changes_nothing(
    sessions: Seq<SessionView>,
    session_id: Seq<char>,
    query: Seq<char>,
    options: SearchOptions,
)
    requires
        search_found(sessions, session_id, query, options) is Err || (query.len() > 0
            && !is_paginated(options)),
    ensures
        after_search(sessions, session_id, query, options) == sessions,
{
}

/// Two searches of the same sessions for the same query with the same options give the same,
/// however many processors each of them used; and what they find is what one scan over all lines
/// of the session finds.
pub proof fn law_search_has_one_answer(
    a: Result<SearchResultLite, TraceError>,
    b: Result<SearchResultLite, TraceError>,
    sessions: Seq<SessionView>,
    session_id: Seq<char>,
    query: Seq<char>,
    options: SearchOptions,
)
    requires
        is_search_answer(a, sessions, session_id, query, options),
        is_search_answer(b, sessions, session_id, query, options),
    ensures
        match (a, b) {
            (Ok(x), Ok(y)) => {
                &&& x.match_seqs@ == y.match_seqs@
                &&& x.total_scanned == y.total_scanned
                &&& x.total_matches == y.total_matches
                &&& x.truncated == y.truncated
                &&& query.len() > 0 ==> {
                    let s = sessions[session_place(sessions, session_id).unwrap()];
                    let mode = search_mode(
                        query,
                        options.case_sensitive,
                        options.use_regex,
                        options.fuzzy,
                    )->Ok_0;
                    let all = hits(session_scan(s, mode), 0, 0, session_lines(s));
                    &&& x.match_seqs@ == first_of(all, result_limit(options))
                    &&& x.total_matches == all.len()
                }
            },
            (Err(x), Err(y)) => x@ == y@,
            _ => false,
        },
{
}

/// A greater limit only lengthens what a search that is not kept gives back: the shorter list is a
/// beginning of the longer one, the numbers are the same, and where the longer one held something
/// back so did the shorter.
pub proof fn law_greater_limit_only_lengthens(
    less: Result<SearchResultLite, TraceError>,
    more: Result<SearchResultLite, TraceError>,
    sessions: Seq<SessionView>,
    session_id: Seq<char>,
    query: Seq<char>,
    options: SearchOptions,
    m1: u32,
    m2: u32,
)
    requires
        !options.cache,
        m1 <= m2,
        is_search_answer(
            less,
            sessions,
            session_id,
            query,
            SearchOptions { max_results: Some(m1), ..options },
        ),
        is_search_answer(
            more,
            sessions,
            session_id,
            query,
            SearchOptions { max_results: Some(m2), ..options },
        ),
    ensures
        match (less, more) {
            (Ok(x), Ok(y)) => {
                &&& x.match_seqs@.is_prefix_of(y.match_seqs@)
                &&& x.total_matches == y.total_matches
                &&& x.total_scanned == y.total_scanned
                &&& y.truncated ==> x.truncated
            },
            (Err(x), Err(y)) => x@ == y@,
            _ => false,
        },
{
}

/// The first `n` pages of `count` entries each, one behind the other.
pub open spec fn pages_joined<T>(found: Seq<T>, count: int, n: nat) -> Seq<T>
    decreases n,
{
    if n == 0 {
        Seq::empty()
    } else {
        pages_joined(found, count, (n - 1) as nat) + page_of(found, (n - 1) * count, count)
    }
}

/// Pages one behind the other, from the first on, give back what they are pages of: no entry is
/// left out and none comes twice. Once they reach its end they are all of it, and the page after
/// them is empty.
pub proof fn law_pages_give_back_the_whole<T>(found: Seq<T>, count: int, n: nat)
    requires
        0 < count,
    ensures
        pages_joined(found, count, n) == first_of(found, n * count),
        n * count >= found.len() ==> pages_joined(found, count, n) == found,
        n * count >= found.len() <==> page_of(found, n * count, count).len() == 0,
    decreases n,
{
    assert(0 * count == 0) by (nonlinear_arith);
    assert(0 <= n * count) by (nonlinear_arith)
        requires
            0 < count,
            0 <= n,
    ;
    if n == 0 {
        assert(pages_joined(found, count, n) =~= first_of(found, 0));
    } else {
        let m = (n - 1) as nat;
        law_pages_give_back_the_whole(found, count, m);
        assert(n * count == m * count + count) by (nonlinear_arith)
            requires
                n == m + 1,
        ;
        law_first_page_is_a_page(found, m * count);
        law_pages_join(found, 0, m * count, count);
        law_first_page_is_a_page(found, n * count);
    }
}

/// After a search was kept, and before another one, its pages carry its number; one behind the
/// other they give back all that it found, in ascending order and without repetition, starting with
/// what the search gave back at once.
pub proof fn law_pages_of_a_kept_search(
    r: SearchResultLite,
    sessions: Seq<SessionView>,
    session_id: Seq<char>,
    query: Seq<char>,
    options: SearchOptions,
    count: int,
    n: nat,
)
    requires
        query.len() > 0,
        is_paginated(options),
        0 < count,
        is_search_answer(Ok(r), sessions, session_id, query, options),
    ensures
        ({
            let i = session_place(sessions, session_id).unwrap();
            let after = after_search(sessions, session_id, query, options);
            let pages = pages_joined(after[i].kept, count, n);
            &&& session_place(after, session_id) == Some(i)
            &&& after[i].generation == next_generation(sessions[i].generation)
            &&& page_of(after[i].kept, 0, SEARCH_FIRST_PAGE_SIZE as int) == r.match_seqs@
            &&& r.match_seqs@.is_prefix_of(after[i].kept)
            &&& after[i].kept.len() == r.total_matches
            &&& forall|a: int, b: int|
                0 <= a < b < after[i].kept.len() ==> after[i].kept[a] < after[i].kept[b]
            &&& pages == first_of(after[i].kept, n * count)
            &&& n * count >= r.total_matches ==> pages == after[i].kept
            &&& n * count >= r.total_matches <==> page_of(
                after[i].kept,
                n * count,
                count,
            ).len() == 0
        }),
{
    let i = session_place(sessions, session_id).unwrap();
    lemma_place_unique(sessions, session_id);
    let found = search_found(sessions, session_id, query, options)->Ok_0;
    law_kept_search_is_read_back(
        sessions,
        session_id,
        next_generation(sessions[i].generation),
        found,
    );
    law_pages_give_back_the_whole(found, count, n);
    law_first_page_is_a_page(found, SEARCH_FIRST_PAGE_SIZE as int);
    let mode = search_mode(
        query,
        options.case_sensitive,
        options.use_regex,
        options.fuzzy,
    )->Ok_0;
    law_search_finds_the_matching_lines(sessions[i], mode);
}

/// The place of a session is one of the places.
pub proof fn lemma_place_is_there(sessions: Seq<SessionView>, id: Seq<char>)
    ensures
        session_place(sessions, id) matches Some(i) ==> 0 <= i < sessions.len()
            && sessions[i].session_id == id,
{
    lemma_place_unique(sessions, id);
}

proof fn lemma_place_unique(sessions: Seq<SessionView>, id: Seq<char>)
    ensures
        session_place(sessions, id) matches Some(p) ==> is_session(sessions, id, p),
        forall|i: int, j: int|
            #![trigger is_session(sessions, id, i), is_session(sessions, id, j)]
            is_session(sessions, id, i) && is_session(sessions, id, j) ==> i == j,
{
    assert forall|i: int, j: int|
        #![trigger is_session(sessions, id, i), is_session(sessions, id, j)]
        is_session(sessions, id, i) && is_session(sessions, id, j) implies i == j by {
        if i < j {
            assert(sessions[i].session_id != id);
        }
        if j < i {
            assert(sessions[j].session_id != id);
        }
    }
}

proof fn lemma_first_session(sessions: Seq<SessionView>, id: Seq<char>, j: int)
    requires
        0 <= j < sessions.len(),
        sessions[j].session_id == id,
    ensures
        exists|i: int| is_session(sessions, id, i),
    decreases j,
{
    if exists|k: int| 0 <= k < j && (#[trigger] sessions[k]).session_id == id {
        let k = choose|k: int| 0 <= k < j && (#[trigger] sessions[k]).session_id == id;
        lemma_first_session(sessions, id, k);
    } else {
        assert(is_session(sessions, id, j));
    }
}

/// A session is found under an id exactly if one has that id, and then the first one that has it.
pub proof fn law_a_session_is_found_by_its_id(sessions: Seq<SessionView>, id: Seq<char>, i: int)
    ensures
        session_place(sessions, id) == Some(i) <==> 0 <= i < sessions.len() && sessions[i].session_id
            == id && (forall|j: int| 0 <= j < i ==> (#[trigger] sessions[j]).session_id != id),
        session_place(sessions, id) is None <==> (forall|j: int|
            0 <= j < sessions.len() ==> (#[trigger] sessions[j]).session_id != id),
{
    lemma_place_unique(sessions, id);
    if 0 <= i < sessions.len() && sessions[i].session_id == id && (forall|j: int|
        0 <= j < i ==> (#[trigger] sessions[j]).session_id != id) {
        assert(is_session(sessions, id, i));
        let p = session_place(sessions, id).unwrap();
        assert(is_session(sessions, id, p));
    }
    if session_place(sessions, id) is None {
        assert forall|j: int| 0 <= j < sessions.len() implies (#[trigger] sessions[j]).session_id
            != id by {
            if sessions[j].session_id == id {
                lemma_first_session(sessions, id, j);
            }
        }
    }
}

/// A page holds the entries from its offset on, in order and as many as asked for, as far as there
/// are any.
pub proof fn law_a_page_holds_what_is_there<T>(found: Seq<T>, offset: int, count: int)
    requires
        0 <= offset,
        0 <= count,
    ensures
        page_of(found, offset, count).len() == if offset >= found.len() {
            0
        } else if offset + count <= found.len() {
            count
        } else {
            found.len() - offset
        },
        forall|i: int|
            0 <= i < page_of(found, offset, count).len() ==> #[trigger] page_of(
                found,
                offset,
                count,
            )[i] == found[offset + i],
{
}

/// A search finds the number of a line exactly if the trace was indexed and has the line, the line
/// does not belong to the call before it, and the bytes up to its line feed or the text of its call
/// hold what is looked for.
pub proof fn law_what_a_search_finds(s: SessionView, mode: ModeView, seq: u32)
    ensures
        session_hits(s, mode).contains(seq) <==> {
            let start = line_start(s.data, 0, seq as nat);
            &&& s.indexed matches Some(n) && seq < n
            &&& start < s.data.len()
            &&& !s.consumed.contains(seq)
            &&& found_in(mode, s.data.subrange(start, line_end(s.data, start))) || (
            s.call_search_texts.contains_key(seq) && found_in(
                mode,
                encode_utf8(s.call_search_texts[seq]@),
            ))
        },
        forall|i: int, j: int|
            0 <= i < j < session_hits(s, mode).len() ==> session_hits(s, mode)[i] < session_hits(
                s,
                mode,
            )[j],
{
    law_search_finds_the_matching_lines(s, mode);
    law_when_a_line_is_found(session_scan(s, mode), 0, seq as nat, seq);
}

/// A search of an open session finds the lines that hold what its query asks for, and looks at all
/// lines; for an empty query it finds and looks at nothing. It cannot be made where no session has
/// the id or where the query is no search.
pub proof fn law_which_searches_can_be_made(
    sessions: Seq<SessionView>,
    session_id: Seq<char>,
    query: Seq<char>,
    options: SearchOptions,
)
    ensures
        match session_place(sessions, session_id) {
            None => {
                &&& search_found(sessions, session_id, query, options) == Err::<
                    Seq<u32>,
                    ErrorView,
                >(ErrorView::SessionNotFound(session_id))
                &&& search_scanned(sessions, session_id, query) == 0
            },
            Some(i) => if query == Seq::<char>::empty() {
                &&& search_found(sessions, session_id, query, options) == Ok::<
                    Seq<u32>,
                    ErrorView,
                >(Seq::empty())
                &&& search_scanned(sessions, session_id, query) == 0
            } else {
                &&& match search_mode(
                    query,
                    options.case_sensitive,
                    options.use_regex,
                    options.fuzzy,
                ) {
                    Ok(mode) => search_found(sessions, session_id, query, options) == Ok::<
                        Seq<u32>,
                        ErrorView,
                    >(session_hits(sessions[i], mode)),
                    Err(v) => search_found(sessions, session_id, query, options) == Err::<
                        Seq<u32>,
                        ErrorView,
                    >(v),
                }
                &&& search_scanned(sessions, session_id, query) == match sessions[i].indexed {
                    Some(n) => n as nat,
                    None => 0,
                }
            },
        },
{
    assert(query.len() == 0 <==> query =~= Seq::<char>::empty());
}

/// What a search gives back of what it found is a beginning of it: the first 5000 where the search
/// is kept, or as many as the limit says where it is not. It tells how many lines it found, and that
/// some were held back exactly if some were.
pub proof fn law_what_a_search_gives_back(
    r: Result<SearchResultLite, TraceError>,
    sessions: Seq<SessionView>,
    session_id: Seq<char>,
    query: Seq<char>,
    options: SearchOptions,
)
    requires
        is_search_answer(r, sessions, session_id, query, options),
    ensures
        match (r, search_found(sessions, session_id, query, options)) {
            (Err(e), Err(v)) => e@ == v,
            (Ok(res), Ok(found)) => {
                let limit = if options.cache {
                    5000int
                } else {
                    match options.max_results {
                        Some(n) => n as int,
                        None => 5000,
                    }
                };
                &&& res.total_matches == found.len()
                &&& res.total_scanned == search_scanned(sessions, session_id, query)
                &&& res.match_seqs@.len() == if limit < found.len() {
                    limit
                } else {
                    found.len() as int
                }
                &&& forall|k: int|
                    0 <= k < res.match_seqs@.len() ==> #[trigger] res.match_seqs@[k] == found[k]
                &&& res.truncated <==> res.match_seqs@.len() < found.len()
            },
            _ => false,
        },
{
}

/// After a search every other session is as it was, and the searched one keeps its trace. An empty
/// query makes it forget what it kept; a search without a limit, or one that is to be kept, makes it
/// keep all that was found under the next number, which starts again at zero behind the greatest; no
/// other search changes what it keeps.
pub proof fn law_what_a_search_keeps(
    sessions: Seq<SessionView>,
    session_id: Seq<char>,
    query: Seq<char>,
    options: SearchOptions,
)
    ensures
        ({
            let after = after_search(sessions, session_id, query, options);
            &&& after.len() == sessions.len()
            &&& forall|j: int|
                0 <= j < sessions.len() && session_place(sessions, session_id) != Some(j)
                    ==> #[trigger] after[j] == sessions[j]
            &&& session_place(sessions, session_id) matches Some(i) ==> {
                let (old_one, new_one) = (sessions[i], after[i]);
                &&& new_one.session_id == old_one.session_id
                &&& new_one.data == old_one.data
                &&& new_one.indexed == old_one.indexed
                &&& new_one.trace_format == old_one.trace_format
                &&& new_one.call_search_texts == old_one.call_search_texts
                &&& new_one.call_annotations == old_one.call_annotations
                &&& new_one.consumed == old_one.consumed
                &&& match search_found(sessions, session_id, query, options) {
                    Err(_) => new_one == old_one,
                    Ok(found) => if query.len() == 0 {
                        new_one.generation == 0 && new_one.kept.len() == 0
                    } else if options.cache || options.max_results is None {
                        &&& new_one.kept == found
                        &&& old_one.generation < u64::MAX ==> new_one.generation
                            == old_one.generation + 1
                        &&& old_one.generation == u64::MAX ==> new_one.generation == 0
                    } else {
                        new_one == old_one
                    },
                }
            }
        }),
{
    lemma_place_is_there(sessions, session_id);
}

/// Of the lines asked for, those are shown, in the order asked for, that the trace has, that do not
/// belong to the call before them, and whose bytes can be read; each with the call made there and
/// its search text, where there are any.
pub proof fn law_which_lines_are_shown(
    s: SessionView,
    mode: ModeView,
    seqs: Seq<u32>,
    reads: spec_fn(TraceFormat, u32, Seq<u8>) -> Option<TraceLine>,
    n: nat,
)
    requires
        n < seqs.len(),
    ensures
        shown_matches(s, mode, seqs, reads, 0).len() == 0,
        ({
            let seq = seqs[n as int];
            let start = line_start(s.data, 0, seq as nat);
            let before = shown_matches(s, mode, seqs, reads, n);
            let after = shown_matches(s, mode, seqs, reads, n + 1);
            match (s.indexed, reads(s.trace_format, seq, s.data.subrange(start, line_end(s.data, start))))
            {
                (Some(lines), Some(line)) if seq < lines && !s.consumed.contains(seq) => after
                    == before.push(
                    match_of(
                        mode,
                        line,
                        if s.call_annotations.contains_key(seq) {
                            Some(s.call_annotations[seq])
                        } else {
                            None
                        },
                        if s.call_search_texts.contains_key(seq) {
                            Some(s.call_search_texts[seq])
                        } else {
                            None
                        },
                    ),
                ),
                _ => after == before,
            }
        }),
{
}

/// A reader of lines is described by what it gives whenever it is called. What an index counts is
/// the lines of the trace.
pub proof fn law_readers_are_described_by_what_they_give<
    F: Fn(TraceFormat, u32, &[u8]) -> Option<TraceLine>,
>(
    parse: F,
    reads: spec_fn(TraceFormat, u32, Seq<u8>) -> Option<TraceLine>,
    n: u32,
    data: Seq<u8>,
)
    ensures
        (forall|format: TraceFormat, seq: u32, line: &[u8], r: Option<TraceLine>| #[trigger]
            call_ensures(parse, (format, seq, line), r) ==> r == reads(format, seq, line@))
            ==> reads_as(parse, reads),
        (forall|format: TraceFormat, seq: u32, line: &[u8]| #[trigger]
            call_requires(parse, (format, seq, line))) ==> takes_any_line(parse),
        counts_lines(Some(n), data) ==> n == line_feeds(data) + if data.len() > 0 && data.last()
            != 10 {
            1int
        } else {
            0
        },
        counts_lines(None, data) ==> line_feeds(data) + 1 > u32::MAX,
{
    if counts_lines(Some(n), data) {
        law_line_feeds_count_the_lines(data, n as int);
    }
    if counts_lines(None, data) {
        law_data_has_lines(data);
        let m = choose|m: int| has_lines(data, m);
        law_line_feeds_count_the_lines(data, m);
    }
}

} // verus!
