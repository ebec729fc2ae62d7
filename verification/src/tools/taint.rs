//! Tracing where values came from.

use std::collections::{BTreeSet, HashSet};

use vstd::prelude::*;
use vstd::std_specs::btree::*;
use vstd::std_specs::cmp::OrdSpec;
use vstd::std_specs::iter::IteratorSpec;
use vstd::string::*;

use crate::api_types::{SliceOptions, TraceLine};
use crate::engine::{law_first_page_is_a_page, page_of};
use crate::requests::{GetTaintedLinesRequest, TaintAnalysisRequest};
use crate::scan::{ascending, first_of, lemma_filter_ascending, lemma_filter_ends, lemma_filter_step, number_set};
use crate::text::{decimal, decimal_text, join_texts, joined, numeral, texts, truth};
use crate::tools::browse::{add_up_to_max, min_of, min_u32, numbers, subtract_to_zero};
use crate::tools::lines::{after_addr_filter, drop_stack_ops, filter_by_addr, format_line, format_lines, law_addr_filter_keeps_the_range, law_only_stack_changes_are_left_out, shown_line, shown_lines, without_stack_ops, ShownLine};

verus! {

/// How many tainted lines one request shows at most.
pub const MAX_TAINTED: u32 = 200;

/// How many lines before and after a tainted line are shown at most.
pub const MAX_CONTEXT: u32 = 5;

/// What an analysis started from.
pub struct SliceOrigin {
    pub from_specs: Vec<String>,
    pub data_only: bool,
    pub start_seq: Option<u32>,
    pub end_seq: Option<u32>,
}

/// An optional number behind its label; nothing where the number is absent.
pub open spec fn labelled(label: Seq<char>, n: Option<u32>) -> Seq<char> {
    match n {
        Some(v) => label + decimal(v as nat),
        None => Seq::empty(),
    }
}

/// What an analysis started from, in words.
pub open spec fn origin_words(o: SliceOrigin) -> Seq<char> {
    "taint from "@ + joined(texts(o.from_specs@), ", "@) + ", data_only="@ + truth(o.data_only)
        + labelled(", start_seq="@, o.start_seq) + labelled(", end_seq="@, o.end_seq)
}

/// Says what an analysis started from.
pub fn describe_origin(o: &SliceOrigin) -> (r: String)
    ensures
        r@ == origin_words(*o),
{
    let mut r = "taint from ".to_owned();
    r.append(join_texts(&o.from_specs, ", ").as_str());
    r.append(", data_only=");
    if o.data_only {
        r.append("true");
    } else {
        r.append("false");
    }
    if let Some(s) = o.start_seq {
        r.append(", start_seq=");
        r.append(decimal_text(s as u64).as_str());
    }
    if let Some(e) = o.end_seq {
        r.append(", end_seq=");
        r.append(decimal_text(e as u64).as_str());
    }
    assert(r@ =~= origin_words(*o));
    r
}

/// The tainted lines that are left once those that only move the stack are left out, where that
/// was asked for.
pub open spec fn after_stack_filter(lines: Seq<TraceLine>, ignore_stack_ops: bool) -> Seq<TraceLine> {
    if ignore_stack_ops {
        without_stack_ops(lines)
    } else {
        lines
    }
}

/// The tainted lines that both filters leave, or what is wrong with the address range.
pub open spec fn tainted_kept(
    lines: Seq<TraceLine>,
    ignore_stack_ops: bool,
    addr_range: Option<String>,
) -> Result<Seq<TraceLine>, Seq<char>> {
    after_addr_filter(after_stack_filter(lines, ignore_stack_ops), addr_range)
}

/// The tainted lines that a request is given, and how many there were at each step.
pub struct TaintedPage {
    pub lines: Vec<TraceLine>,
    pub total_tainted: u32,
    pub total_after_filter: u32,
    pub stack_ops_filtered: u32,
}

/// Moves `count` lines from `offset` on, as far as there are any, out of `lines`.
fn take_page(lines: Vec<TraceLine>, offset: usize, count: usize) -> (r: Vec<TraceLine>)
    ensures
        r@ == page_of(lines@, offset as int, count as int),
{
    let ghost all = lines@;
    let n: usize = lines.len();
    let mut r: Vec<TraceLine> = Vec::new();
    let mut place: usize = 0;
    assert(page_of(all.take(0), offset as int, count as int) =~= Seq::<TraceLine>::empty());
    for line in it: lines.into_iter()
        invariant
            it.seq() == all,
            n == all.len(),
            place == it.index(),
            r@ == page_of(all.take(it.index() as int), offset as int, count as int),
    {
        if place >= offset && place - offset < count {
            r.push(line);
        }
        place = place + 1;
        assert(r@ =~= page_of(all.take(it.index() + 1), offset as int, count as int));
    }
    assert(all.take(all.len() as int) =~= all);
    r
}

/// Chooses the tainted lines for a request, out of the lines with the numbers that the analysis
/// marked, `total_tainted` of them.
pub fn tainted_page(req: &GetTaintedLinesRequest, total_tainted: u32, lines: Vec<TraceLine>) -> (r:
    Result<TaintedPage, String>)
    requires
        lines@.len() <= total_tainted,
    ensures
        match tainted_kept(lines@, req.ignore_stack_ops, req.addr_range) {
            Err(t) => r matches Err(e) && e@ == t,
            Ok(kept) => {
                &&& r matches Ok(p)
                &&& p.lines@ == page_of(
                    kept,
                    req.offset as int,
                    min_of(req.limit as int, MAX_TAINTED as int),
                )
                &&& p.total_tainted == total_tainted
                &&& p.total_after_filter == kept.len()
                &&& p.stack_ops_filtered == if req.ignore_stack_ops {
                    total_tainted - without_stack_ops(lines@).len()
                } else {
                    0
                }
            },
        },
{
    let limit: u32 = min_u32(req.limit, MAX_TAINTED);
    proof {
        lemma_filters_shorten(lines@, req.ignore_stack_ops, req.addr_range);
    }
    let ghost all = lines@;
    let (kept, stack_ops_filtered): (Vec<TraceLine>, u32) = if req.ignore_stack_ops {
        let kept = drop_stack_ops(lines);
        let n: usize = kept.len();
        (kept, total_tainted - n as u32)
    } else {
        (lines, 0)
    };
    assert(kept@ == after_stack_filter(all, req.ignore_stack_ops));
    match filter_by_addr(kept, &req.addr_range) {
        Err(e) => Err(e),
        Ok(kept) => {
            let total_after_filter: u32 = kept.len() as u32;
            Ok(
                TaintedPage {
                    lines: take_page(kept, req.offset as usize, limit as usize),
                    total_tainted,
                    total_after_filter,
                    stack_ops_filtered,
                },
            )
        },
    }
}

proof fn lemma_filters_shorten(
    lines: Seq<TraceLine>,
    ignore_stack_ops: bool,
    addr_range: Option<String>,
)
    ensures
        without_stack_ops(lines).len() <= lines.len(),
        tainted_kept(lines, ignore_stack_ops, addr_range) matches Ok(kept) ==> kept.len()
            <= after_stack_filter(lines, ignore_stack_ops).len() <= lines.len(),
{
    lines.lemma_filter_len(|l: TraceLine| !crate::tools::lines::stack_only(l.changes@));
    let kept = after_stack_filter(lines, ignore_stack_ops);
    if let Some(text) = addr_range {
        if let Ok((start, end)) = crate::ranges::addr_range(text@) {
            kept.lemma_filter_len(|l: TraceLine| crate::tools::lines::in_addr_range(l, start, end));
        }
    }
}

/// The number lies at most `ctx` before or after that of a line of `page`.
pub open spec fn near(page: Seq<TraceLine>, ctx: int, seq: u32) -> bool {
    exists|i: int| 0 <= i < page.len() && -ctx <= seq - (#[trigger] page[i]).seq <= ctx
}

/// A line of `page` has the number.
pub open spec fn on_page(page: Seq<TraceLine>, seq: u32) -> bool {
    exists|i: int| 0 <= i < page.len() && (#[trigger] page[i]).seq == seq
}

/// In ascending order the numbers of the lines of `page` and of those at most `ctx` before or
/// after one of them.
pub open spec fn near_seqs(page: Seq<TraceLine>, ctx: int) -> Seq<u32> {
    numbers(0, u32::MAX + 1).filter(|seq: u32| near(page, ctx, seq))
}

proof fn lemma_ascending_unique(a: Seq<u32>, b: Seq<u32>)
    requires
        ascending(a),
        ascending(b),
        forall|x: u32| #[trigger] a.contains(x) <==> b.contains(x),
    ensures
        a == b,
    decreases a.len(),
{
    if a.len() == 0 {
        if b.len() > 0 {
            assert(b.contains(b[0]) && !a.contains(b[0]));
        }
        assert(a =~= b);
    } else {
        assert(a.contains(a.last()));
        assert(b.contains(a.last()));
        assert(b.contains(b.last()));
        assert(a.contains(b.last()));
        assert(a.last() == b.last());
        let (x, y) = (a.drop_last(), b.drop_last());
        assert forall|v: u32| #[trigger] x.contains(v) <==> y.contains(v) by {
            if x.contains(v) {
                let i = choose|i: int| 0 <= i < x.len() && x[i] == v;
                assert(a[i] == v);
                assert(a.contains(v));
                assert(b.contains(v));
                let j = choose|j: int| 0 <= j < b.len() && b[j] == v;
                assert(y[j] == v);
            }
            if y.contains(v) {
                let j = choose|j: int| 0 <= j < y.len() && y[j] == v;
                assert(b[j] == v);
                assert(b.contains(v));
                assert(a.contains(v));
                let i = choose|i: int| 0 <= i < a.len() && a[i] == v;
                assert(x[i] == v);
            }
        }
        lemma_ascending_unique(x, y);
        assert(a =~= x.push(a.last()));
        assert(b =~= y.push(b.last()));
    }
}

/// `near_seqs` has the numbers near a line of the page, each once, in ascending order.
proof fn lemma_near_seqs(page: Seq<TraceLine>, ctx: int)
    ensures
        ascending(near_seqs(page, ctx)),
        forall|x: u32| #[trigger] near_seqs(page, ctx).contains(x) <==> near(page, ctx, x),
{
    let all = numbers(0, u32::MAX + 1);
    let keep = |seq: u32| near(page, ctx, seq);
    lemma_filter_ascending(all, keep);
    assert forall|x: u32| #[trigger] near_seqs(page, ctx).contains(x) <==> near(page, ctx, x) by {
        assert(all[x as int] == x);
        assert(all.filter(keep).contains(x) <==> all.contains(x) && keep(x));
    }
}

/// The members of a set of numbers, in ascending order.
fn listed(set: &BTreeSet<u32>) -> (r: Vec<u32>)
    ensures
        ascending(r@),
        forall|x: u32| #[trigger] r@.contains(x) <==> set@.contains(x),
{
    broadcast use {vstd::laws_cmp::group_laws_cmp, vstd::std_specs::btree::group_btree_axioms};

    let ghost refs = spec_btree_keys_iter(set).remaining();
    let ghost all = refs.unref();
    proof {
        assert(vstd::laws_cmp::obeys_cmp::<&u32>());
        assert(increasing_seq(refs));
        assert forall|i: int, j: int| 0 <= i < j < all.len() implies all[i] < all[j] by {
            assert(OrdSpec::cmp_spec(&refs[i], &refs[j]) is Less);
            assert(*refs[i] == all[i] && *refs[j] == all[j]);
        }
    }
    let mut r: Vec<u32> = Vec::new();
    for x in it: set.iter()
        invariant
            it.seq().unref() == all,
            r@ == all.take(it.index() + 0),
    {
        r.push(*x);
        assert(r@ =~= all.take(it.index() + 1));
    }
    proof {
        assert(r@ =~= all);
        assert forall|x: u32| #[trigger] r@.contains(x) <==> set@.contains(x) by {
            assert(all.to_set().contains(x) == all.contains(x));
        }
    }
    r
}

/// Puts the numbers from `lo` to `hi` into a set.
fn insert_range(set: &mut BTreeSet<u32>, lo: u32, hi: u32)
    requires
        lo <= hi,
    ensures
        forall|x: u32| #[trigger] final(set)@.contains(x) <==> old(set)@.contains(x) || lo <= x <= hi,
{
    broadcast use vstd::laws_cmp::group_laws_cmp;

    let ghost before = set@;
    let mut i: u32 = lo;
    while i < hi
        invariant
            lo <= i <= hi,
            forall|x: u32| #[trigger] set@.contains(x) <==> before.contains(x) || lo <= x < i,
        decreases hi - i,
    {
        set.insert(i);
        i = i + 1;
    }
    set.insert(i);
}

/// The numbers of the lines of a page and of those at most `ctx` before or after one of them.
pub fn context_seqs(page: &Vec<TraceLine>, ctx: u32) -> (r: Vec<u32>)
    ensures
        r@ == near_seqs(page@, ctx as int),
{
    let mut set: BTreeSet<u32> = BTreeSet::new();
    let mut i: usize = 0;
    while i < page.len()
        invariant
            i <= page@.len(),
            forall|x: u32| #[trigger] set@.contains(x) <==> near(page@.take(i as int), ctx as int, x),
        decreases page@.len() - i,
    {
        let ghost before = set@;
        let seq: u32 = page[i].seq;
        let lo: u32 = subtract_to_zero(seq, ctx);
        let hi: u32 = add_up_to_max(seq, ctx);
        insert_range(&mut set, lo, hi);
        proof {
            let (shorter, longer) = (page@.take(i as int), page@.take(i + 1));
            assert forall|x: u32| #[trigger] set@.contains(x) <==> near(longer, ctx as int, x) by {
                if near(shorter, ctx as int, x) {
                    let k = choose|k: int|
                        0 <= k < shorter.len() && -ctx <= x - (#[trigger] shorter[k]).seq <= ctx;
                    assert(longer[k] == shorter[k]);
                }
                if near(longer, ctx as int, x) {
                    let k = choose|k: int|
                        0 <= k < longer.len() && -ctx <= x - (#[trigger] longer[k]).seq <= ctx;
                    if k < i {
                        assert(shorter[k] == longer[k]);
                    } else {
                        assert(longer[k] == page@[i as int]);
                    }
                }
                if lo <= x <= hi {
                    assert(longer[i as int] == page@[i as int]);
                }
                assert(before.contains(x) <==> near(shorter, ctx as int, x));
            }
        }
        i = i + 1;
    }
    let r = listed(&set);
    proof {
        assert(page@.take(page@.len() as int) =~= page@);
        lemma_near_seqs(page@, ctx as int);
        lemma_ascending_unique(r@, near_seqs(page@, ctx as int));
    }
    r
}

/// The numbers in `seqs` that no line of `page` has.
pub open spec fn off_page(page: Seq<TraceLine>, seqs: Seq<u32>) -> Seq<u32> {
    seqs.filter(|seq: u32| !on_page(page, seq))
}

/// The first line with the number.
pub open spec fn first_with(lines: Seq<TraceLine>, seq: u32) -> Option<TraceLine>
    decreases lines.len(),
{
    if lines.len() == 0 {
        None
    } else if lines[0].seq == seq {
        Some(lines[0])
    } else {
        first_with(lines.drop_first(), seq)
    }
}

/// The last line with the number.
pub open spec fn last_with(lines: Seq<TraceLine>, seq: u32) -> Option<TraceLine>
    decreases lines.len(),
{
    if lines.len() == 0 {
        None
    } else if lines.last().seq == seq {
        Some(lines.last())
    } else {
        last_with(lines.drop_last(), seq)
    }
}

fn find_first<'a>(lines: &'a Vec<TraceLine>, seq: u32) -> (r: Option<&'a TraceLine>)
    ensures
        match r {
            Some(l) => first_with(lines@, seq) == Some(*l),
            None => first_with(lines@, seq) is None,
        },
        r is Some == on_page(lines@, seq),
{
    let mut i: usize = 0;
    assert(lines@.skip(0) =~= lines@);
    while i < lines.len()
        invariant
            i <= lines@.len(),
            first_with(lines@, seq) == first_with(lines@.skip(i as int), seq),
            forall|k: int| 0 <= k < i ==> (#[trigger] lines@[k]).seq != seq,
        decreases lines@.len() - i,
    {
        assert(lines@.skip(i as int).drop_first() =~= lines@.skip(i + 1));
        assert(lines@.skip(i as int)[0] == lines@[i as int]);
        if lines[i].seq == seq {
            return Some(&lines[i]);
        }
        i = i + 1;
    }
    None
}

fn find_last<'a>(lines: &'a Vec<TraceLine>, seq: u32) -> (r: Option<&'a TraceLine>)
    ensures
        match r {
            Some(l) => last_with(lines@, seq) == Some(*l),
            None => last_with(lines@, seq) is None,
        },
{
    let mut i: usize = lines.len();
    assert(lines@.take(lines@.len() as int) =~= lines@);
    while i > 0
        invariant
            i <= lines@.len(),
            last_with(lines@, seq) == last_with(lines@.take(i as int), seq),
        decreases i,
    {
        assert(lines@.take(i as int).drop_last() =~= lines@.take(i - 1));
        i = i - 1;
        if lines[i].seq == seq {
            return Some(&lines[i]);
        }
    }
    None
}

/// Which of `seqs` have no line on the page.
pub fn seqs_off_page(page: &Vec<TraceLine>, seqs: &Vec<u32>) -> (r: Vec<u32>)
    ensures
        r@ == off_page(page@, seqs@),
{
    let ghost keep = |seq: u32| !on_page(page@, seq);
    let mut r: Vec<u32> = Vec::new();
    let mut i: usize = 0;
    proof {
        lemma_filter_ends(seqs@, keep);
    }
    while i < seqs.len()
        invariant
            i <= seqs@.len(),
            keep == (|seq: u32| !on_page(page@, seq)),
            r@ == seqs@.take(i as int).filter(keep),
        decreases seqs@.len() - i,
    {
        proof {
            lemma_filter_step(seqs@, keep, i as int);
        }
        if find_first(page, seqs[i]).is_none() {
            r.push(seqs[i]);
        }
        i = i + 1;
    }
    r
}

/// How many lines before and after each tainted line a request is given.
pub open spec fn context_width(req: GetTaintedLinesRequest) -> int {
    min_of(req.context_lines as int, MAX_CONTEXT as int)
}

/// The lines round the tainted ones are shown too.
pub open spec fn shows_context(req: GetTaintedLinesRequest, page: Seq<TraceLine>) -> bool {
    context_width(req) > 0 && page.len() > 0
}

/// Which lines to load beside those of the page; none where the request does not ask for the
/// lines round them.
pub fn context_query(req: &GetTaintedLinesRequest, page: &TaintedPage) -> (r: Option<Vec<u32>>)
    ensures
        match r {
            Some(seqs) => shows_context(*req, page.lines@) && seqs@ == off_page(
                page.lines@,
                near_seqs(page.lines@, context_width(*req)),
            ),
            None => !shows_context(*req, page.lines@),
        },
{
    let ctx: u32 = min_u32(req.context_lines, MAX_CONTEXT);
    if ctx > 0 && page.lines.len() > 0 {
        let seqs = context_seqs(&page.lines, ctx);
        Some(seqs_off_page(&page.lines, &seqs))
    } else {
        None
    }
}

/// A line of the answer: whether it is tainted is said only where others are shown too.
pub struct MarkedLine {
    pub line: ShownLine,
    pub tainted: Option<bool>,
}

/// The line for a number: the one of the page, else another one.
pub open spec fn line_for(page: Seq<TraceLine>, extra: Seq<TraceLine>, seq: u32) -> Option<
    TraceLine,
> {
    match first_with(page, seq) {
        Some(l) => Some(l),
        None => last_with(extra, seq),
    }
}

/// How the line for a number is shown: marked by whether the number is among the `tainted` ones,
/// also where another page has the line or a filter left it out.
pub open spec fn marked_line(
    page: Seq<TraceLine>,
    extra: Seq<TraceLine>,
    tainted: Set<u32>,
    seq: u32,
    full: bool,
) -> Option<MarkedLine> {
    match line_for(page, extra, seq) {
        Some(l) => Some(
            MarkedLine { line: shown_line(l, full), tainted: Some(tainted.contains(seq)) },
        ),
        None => None,
    }
}

/// The lines shown for numbers; a number without a line shows none.
pub open spec fn marked_lines(
    page: Seq<TraceLine>,
    extra: Seq<TraceLine>,
    tainted: Set<u32>,
    seqs: Seq<u32>,
    full: bool,
) -> Seq<MarkedLine>
    decreases seqs.len(),
{
    if seqs.len() == 0 {
        Seq::empty()
    } else {
        let before = marked_lines(page, extra, tainted, seqs.drop_last(), full);
        match marked_line(page, extra, tainted, seqs.last(), full) {
            Some(m) => before.push(m),
            None => before,
        }
    }
}

/// The number of a line as it is shown.
pub open spec fn shown_number(line: ShownLine) -> u32 {
    match line {
        ShownLine::Full(l) => l.seq,
        ShownLine::Compact(c) => c.seq,
    }
}

/// Shows the lines for numbers, marked by whether each is tainted.
pub fn mark_lines(
    page: &Vec<TraceLine>,
    extra: &Vec<TraceLine>,
    tainted: &HashSet<u32>,
    seqs: &Vec<u32>,
    full: bool,
) -> (r: Vec<MarkedLine>)
    ensures
        r@ == marked_lines(page@, extra@, tainted@, seqs@, full),
{
    let mut r: Vec<MarkedLine> = Vec::new();
    let mut i: usize = 0;
    while i < seqs.len()
        invariant
            i <= seqs@.len(),
            r@ == marked_lines(page@, extra@, tainted@, seqs@.take(i as int), full),
        decreases seqs@.len() - i,
    {
        assert(seqs@.take(i + 1).drop_last() =~= seqs@.take(i as int));
        let found = match find_first(page, seqs[i]) {
            Some(l) => Some(l),
            None => find_last(extra, seqs[i]),
        };
        if let Some(l) = found {
            r.push(
                MarkedLine { line: format_line(l, full), tainted: Some(tainted.contains(&seqs[i])) },
            );
        }
        i = i + 1;
    }
    assert(seqs@.take(seqs@.len() as int) =~= seqs@);
    r
}

/// The lines of the page alone, unmarked.
pub open spec fn unmarked_lines(page: Seq<TraceLine>, full: bool) -> Seq<MarkedLine> {
    Seq::new(
        page.len(),
        |i: int| MarkedLine { line: shown_line(page[i], full), tainted: None },
    )
}

fn unmark_lines(page: &Vec<TraceLine>, full: bool) -> (r: Vec<MarkedLine>)
    ensures
        r@ == unmarked_lines(page@, full),
{
    let mut r: Vec<MarkedLine> = Vec::new();
    let mut i: usize = 0;
    while i < page.len()
        invariant
            i <= page@.len(),
            r@ == unmarked_lines(page@.take(i as int), full),
        decreases page@.len() - i,
    {
        r.push(MarkedLine { line: format_line(&page[i], full), tainted: None });
        assert(r@ =~= unmarked_lines(page@.take(i + 1), full));
        i = i + 1;
    }
    assert(page@.take(page@.len() as int) =~= page@);
    r
}

/// The answer to a request for tainted lines.
pub struct TaintedLinesResponse {
    pub context: Option<String>,
    pub lines: Vec<MarkedLine>,
    pub total_tainted: u32,
    pub total_after_filter: u32,
    pub stack_ops_filtered: u32,
    pub offset: u32,
    pub count: usize,
    pub context_lines: Option<u32>,
    pub has_more: bool,
}

/// Answers a request for tainted lines. `tainted` are the numbers of all of them, `extra` the lines
/// that `context_query` asked for, as far as they could be loaded.
pub fn tainted_response(
    req: &GetTaintedLinesRequest,
    page: &TaintedPage,
    tainted: &Vec<u32>,
    origin: &Option<SliceOrigin>,
    extra: &Vec<TraceLine>,
) -> (r: TaintedLinesResponse)
    ensures
        match origin {
            Some(o) => r.context matches Some(t) && t@ == origin_words(*o),
            None => r.context is None,
        },
        r.lines@ == if shows_context(*req, page.lines@) {
            marked_lines(
                page.lines@,
                extra@,
                tainted@.to_set(),
                near_seqs(page.lines@, context_width(*req)),
                req.full,
            )
        } else {
            unmarked_lines(page.lines@, req.full)
        },
        forall|i: int|
            0 <= i < r.lines@.len() ==> ((#[trigger] r.lines@[i]).tainted matches Some(b) ==> b
                == tainted@.contains(shown_number(r.lines@[i].line))),
        r.total_tainted == page.total_tainted,
        r.total_after_filter == page.total_after_filter,
        r.stack_ops_filtered == page.stack_ops_filtered,
        r.offset == req.offset,
        r.count == page.lines@.len(),
        r.context_lines == if shows_context(*req, page.lines@) {
            Some(context_width(*req) as u32)
        } else {
            None
        },
        r.has_more == (req.offset + page.lines@.len() < page.total_after_filter),
{
    let ctx: u32 = min_u32(req.context_lines, MAX_CONTEXT);
    let count: usize = page.lines.len();
    let context: Option<String> = match origin {
        Some(o) => Some(describe_origin(o)),
        None => None,
    };
    let (lines, context_lines): (Vec<MarkedLine>, Option<u32>) = if ctx > 0 && count > 0 {
        let seqs = context_seqs(&page.lines, ctx);
        let marks = number_set(tainted);
        proof {
            law_marks_tell_tainted_lines(page.lines@, extra@, marks@, seqs@, req.full);
        }
        (mark_lines(&page.lines, extra, &marks, &seqs, req.full), Some(ctx))
    } else {
        (unmark_lines(&page.lines, req.full), None)
    };
    TaintedLinesResponse {
        context,
        lines,
        total_tainted: page.total_tainted,
        total_after_filter: page.total_after_filter,
        stack_ops_filtered: page.stack_ops_filtered,
        offset: req.offset,
        count,
        context_lines,
        has_more: (req.offset as u64) < page.total_after_filter as u64 && (count as u64)
            < page.total_after_filter as u64 - req.offset as u64,
    }
}

/// What the engine is asked to trace.
pub fn slice_options(req: &TaintAnalysisRequest) -> (r: SliceOptions)
    ensures
        r == (SliceOptions {
            start_seq: req.start_seq,
            end_seq: req.end_seq,
            data_only: req.data_only,
        }),
{
    SliceOptions { start_seq: req.start_seq, end_seq: req.end_seq, data_only: req.data_only }
}

/// How many tainted lines an analysis shows at most.
pub open spec fn lines_wanted(req: TaintAnalysisRequest) -> int {
    min_of(req.include_lines as int, MAX_TAINTED as int)
}

/// What an analysis found, in numbers. The share of marked lines is given as it is shown.
pub struct TaintStats {
    pub marked_count: u32,
    pub total_lines: u32,
    pub percentage: String,
}

/// The answer to a request for an analysis.
pub struct TaintAnalysisResponse {
    pub stats: TaintStats,
    pub lines: Vec<ShownLine>,
    pub total_after_filter: usize,
    pub stack_ops_filtered: u32,
    pub count: usize,
    pub has_more: bool,
    pub hint: Option<String>,
}

/// What an analysis with these numbers answers where the request wants no more than them.
pub open spec fn is_numbers_only(r: TaintAnalysisResponse, stats: TaintStats) -> bool {
    &&& r.stats == stats
    &&& r.lines@.len() == 0
    &&& r.total_after_filter == stats.marked_count
    &&& r.stack_ops_filtered == 0
    &&& r.count == 0
    &&& r.has_more == (stats.marked_count > 0)
    &&& r.hint matches Some(h)
    &&& h@ == "Use get_tainted_lines to retrieve tainted instructions."@
}

/// What an analysis with these numbers answers where it marked no line.
pub open spec fn is_nothing_marked(r: TaintAnalysisResponse, stats: TaintStats) -> bool {
    &&& r.stats == stats
    &&& r.lines@.len() == 0
    &&& r.total_after_filter == 0
    &&& r.stack_ops_filtered == 0
    &&& r.count == 0
    &&& !r.has_more
    &&& r.hint is None
}

/// What is to be done next for a request for an analysis.
pub enum AnalysisStep {
    /// Give this answer.
    Answer(TaintAnalysisResponse),
    /// Ask the engine which lines are tainted, or load them.
    GoOn(TaintStats),
}

/// What follows once the analysis has run: where no lines are wanted, the answer; else the
/// numbers of the tainted lines are needed.
pub fn after_slice(req: &TaintAnalysisRequest, stats: TaintStats) -> (r: AnalysisStep)
    ensures
        match r {
            AnalysisStep::Answer(res) => lines_wanted(*req) == 0 && is_numbers_only(res, stats),
            AnalysisStep::GoOn(s) => lines_wanted(*req) > 0 && s == stats,
        },
{
    if req.include_lines > 0 {
        return AnalysisStep::GoOn(stats);
    }
    let marked: u32 = stats.marked_count;
    AnalysisStep::Answer(
        TaintAnalysisResponse {
            stats,
            lines: Vec::new(),
            total_after_filter: marked as usize,
            stack_ops_filtered: 0,
            count: 0,
            has_more: marked > 0,
            hint: Some("Use get_tainted_lines to retrieve tainted instructions.".to_owned()),
        },
    )
}

/// What follows once the numbers of the tainted lines are known: where there are none, the answer;
/// else their lines are needed.
pub fn after_seqs(stats: TaintStats, tainted_seqs: &Vec<u32>) -> (r: AnalysisStep)
    ensures
        match r {
            AnalysisStep::Answer(res) => tainted_seqs@.len() == 0 && is_nothing_marked(res, stats),
            AnalysisStep::GoOn(s) => tainted_seqs@.len() > 0 && s == stats,
        },
{
    if tainted_seqs.len() > 0 {
        return AnalysisStep::GoOn(stats);
    }
    AnalysisStep::Answer(
        TaintAnalysisResponse {
            stats,
            lines: Vec::new(),
            total_after_filter: 0,
            stack_ops_filtered: 0,
            count: 0,
            has_more: false,
            hint: None,
        },
    )
}

/// Answers a request for an analysis with the lines that it marked.
pub fn analysis_with_lines(
    req: &TaintAnalysisRequest,
    stats: TaintStats,
    lines: Vec<TraceLine>,
) -> (r: Result<TaintAnalysisResponse, String>)
    requires
        lines@.len() <= u32::MAX,
    ensures
        match tainted_kept(lines@, req.ignore_stack_ops, req.addr_range) {
            Err(t) => r matches Err(e) && e@ == t,
            Ok(kept) => {
                let given = first_of(kept, lines_wanted(*req));
                &&& r matches Ok(res)
                &&& res.stats == stats
                &&& res.lines@ == shown_lines(given, false)
                &&& res.total_after_filter == kept.len()
                &&& res.stack_ops_filtered == lines@.len() - after_stack_filter(
                    lines@,
                    req.ignore_stack_ops,
                ).len()
                &&& res.count == given.len()
                &&& res.has_more == (given.len() < kept.len())
                &&& res.hint matches Some(h)
                &&& h@ == if given.len() < kept.len() {
                    "Use get_tainted_lines with offset to see more results."@
                } else {
                    "All tainted lines included."@
                }
            },
        },
{
    let wanted: u32 = min_u32(req.include_lines, MAX_TAINTED);
    let before: usize = lines.len();
    let ghost all = lines@;
    proof {
        lemma_filters_shorten(all, req.ignore_stack_ops, req.addr_range);
    }
    let (kept, stack_ops_filtered): (Vec<TraceLine>, u32) = if req.ignore_stack_ops {
        let kept = drop_stack_ops(lines);
        let n: usize = kept.len();
        (kept, (before - n) as u32)
    } else {
        (lines, 0)
    };
    assert(kept@ == after_stack_filter(all, req.ignore_stack_ops));
    let kept = match filter_by_addr(kept, &req.addr_range) {
        Ok(kept) => kept,
        Err(e) => {
            return Err(e);
        },
    };
    let total_after_filter: usize = kept.len();
    let count: usize = if total_after_filter < wanted as usize {
        total_after_filter
    } else {
        wanted as usize
    };
    let given = vstd::slice::slice_subrange(kept.as_slice(), 0, count);
    assert(given@ =~= first_of(kept@, wanted as int));
    let hint: String = if count < total_after_filter {
        "Use get_tainted_lines with offset to see more results.".to_owned()
    } else {
        "All tainted lines included.".to_owned()
    };
    Ok(
        TaintAnalysisResponse {
            stats,
            lines: format_lines(given, false),
            total_after_filter,
            stack_ops_filtered,
            count,
            has_more: count < total_after_filter,
            hint: Some(hint),
        },
    )
}

/// The lines that an analysis shows are the first page of the tainted lines under the same
/// filters, and it says that there are more exactly if the page after it has a line.
pub proof fn law_analysis_shows_the_first_page(req: TaintAnalysisRequest, lines: Seq<TraceLine>)
    ensures
        tainted_kept(lines, req.ignore_stack_ops, req.addr_range) matches Ok(kept) ==> {
            let given = first_of(kept, lines_wanted(req));
            &&& given == page_of(kept, 0, lines_wanted(req))
            &&& lines_wanted(req) > 0 ==> (given.len() < kept.len() <==> page_of(
                kept,
                given.len() as int,
                lines_wanted(req),
            ).len() > 0)
        },
{
    if let Ok(kept) = tainted_kept(lines, req.ignore_stack_ops, req.addr_range) {
        law_first_page_is_a_page(kept, lines_wanted(req));
    }
}

/// An answer says that there are more tainted lines exactly if the request for the page after it
/// is given one.
pub proof fn law_more_means_a_next_page(kept: Seq<TraceLine>, offset: int, limit: int)
    requires
        0 <= offset,
        0 < limit,
    ensures
        ({
            let page = page_of(kept, offset, limit);
            offset + page.len() < kept.len() <==> page_of(
                kept,
                offset + page.len(),
                limit,
            ).len() > 0
        }),
{
}

/// The filters only leave lines out, and what one of them leaves out the numbers of the answer
/// account for: those left and those that only move the stack are never more than all of them,
/// and without an address range they are all of them.
pub proof fn law_filters_add_up(
    lines: Seq<TraceLine>,
    ignore_stack_ops: bool,
    addr_range: Option<String>,
)
    ensures
        tainted_kept(lines, ignore_stack_ops, addr_range) matches Ok(kept) ==> {
            let filtered = lines.len() - after_stack_filter(lines, ignore_stack_ops).len();
            &&& 0 <= filtered
            &&& kept.len() + filtered <= lines.len()
            &&& addr_range is None ==> kept.len() + filtered == lines.len()
            &&& forall|i: int| #![trigger kept[i]] 0 <= i < kept.len() ==> lines.contains(kept[i])
        },
{
    lemma_filters_shorten(lines, ignore_stack_ops, addr_range);
    if let Ok(kept) = tainted_kept(lines, ignore_stack_ops, addr_range) {
        let some = after_stack_filter(lines, ignore_stack_ops);
        assert forall|i: int| #![trigger some[i]] 0 <= i < some.len() implies lines.contains(
            some[i],
        ) by {
            if ignore_stack_ops {
                lines.lemma_filter_contains_rev(
                    |l: TraceLine| !crate::tools::lines::stack_only(l.changes@),
                    some[i],
                );
            }
        }
        assert forall|i: int| #![trigger kept[i]] 0 <= i < kept.len() implies lines.contains(
            kept[i],
        ) by {
            if let Some(text) = addr_range {
                let (start, end) = crate::ranges::addr_range(text@)->Ok_0;
                some.lemma_filter_contains_rev(
                    |l: TraceLine| crate::tools::lines::in_addr_range(l, start, end),
                    kept[i],
                );
                let k = choose|k: int| 0 <= k < some.len() && some[k] == kept[i];
                assert(lines.contains(some[k]));
            }
        }
    }
}

/// The lines round a page are in ascending order without repetition; each tainted line of the page
/// is among them, and the others are loaded beside the page, none of them twice.
pub proof fn law_context_surrounds_the_page(page: Seq<TraceLine>, ctx: int)
    requires
        0 <= ctx,
    ensures
        ascending(near_seqs(page, ctx)),
        forall|seq: u32| #[trigger] near_seqs(page, ctx).contains(seq) <==> near(page, ctx, seq),
        forall|i: int| 0 <= i < page.len() ==> near_seqs(page, ctx).contains((#[trigger] page[i]).seq),
        ascending(off_page(page, near_seqs(page, ctx))),
        forall|seq: u32| #[trigger]
            off_page(page, near_seqs(page, ctx)).contains(seq) <==> near(page, ctx, seq) && !on_page(
                page,
                seq,
            ),
{
    lemma_near_seqs(page, ctx);
    let all = near_seqs(page, ctx);
    let keep = |seq: u32| !on_page(page, seq);
    lemma_filter_ascending(all, keep);
    assert forall|seq: u32| #[trigger] off_page(page, all).contains(seq) <==> near(page, ctx, seq)
        && !on_page(page, seq) by {
        assert(all.filter(keep).contains(seq) <==> all.contains(seq) && keep(seq));
    }
    assert forall|i: int| 0 <= i < page.len() implies all.contains((#[trigger] page[i]).seq) by {
        assert(near(page, ctx, page[i].seq));
    }
}

/// Of the lines shown with their surroundings, exactly those with a tainted number are marked as
/// tainted: no tainted line is given out as not tainted. A number shows a line exactly if there is
/// one for it.
pub proof fn law_marks_tell_tainted_lines(
    page: Seq<TraceLine>,
    extra: Seq<TraceLine>,
    tainted: Set<u32>,
    seqs: Seq<u32>,
    full: bool,
)
    ensures
        forall|i: int|
            0 <= i < marked_lines(page, extra, tainted, seqs, full).len() ==> (
            #[trigger] marked_lines(page, extra, tainted, seqs, full)[i]).tainted == Some(
                tainted.contains(
                    shown_number(marked_lines(page, extra, tainted, seqs, full)[i].line),
                ),
            ),
        forall|seq: u32|
            #[trigger] marked_line(page, extra, tainted, seq, full) is Some <==> on_page(page, seq)
                || on_page(extra, seq),
    decreases seqs.len(),
{
    assert forall|seq: u32| (#[trigger] marked_line(page, extra, tainted, seq, full) is Some <==> (
    on_page(page, seq) || on_page(extra, seq))) && (marked_line(page, extra, tainted, seq, full)
        matches Some(m) ==> shown_number(m.line) == seq) by {
        lemma_first_with(page, seq);
        lemma_last_with(extra, seq);
    }
    if seqs.len() > 0 {
        law_marks_tell_tainted_lines(page, extra, tainted, seqs.drop_last(), full);
        let last = marked_line(page, extra, tainted, seqs.last(), full);
        let before = marked_lines(page, extra, tainted, seqs.drop_last(), full);
        let all = marked_lines(page, extra, tainted, seqs, full);
        assert forall|i: int| 0 <= i < all.len() implies (#[trigger] all[i]).tainted == Some(
            tainted.contains(shown_number(all[i].line)),
        ) by {
            if i < before.len() {
                assert(all[i] == before[i]);
            }
        }
    }
}

proof fn lemma_first_with(lines: Seq<TraceLine>, seq: u32)
    ensures
        first_with(lines, seq) is Some == on_page(lines, seq),
        first_with(lines, seq) matches Some(l) ==> l.seq == seq,
    decreases lines.len(),
{
    if lines.len() > 0 {
        let rest = lines.drop_first();
        lemma_first_with(rest, seq);
        if lines[0].seq != seq {
            if on_page(rest, seq) {
                let i = choose|i: int| 0 <= i < rest.len() && (#[trigger] rest[i]).seq == seq;
                assert(lines[i + 1].seq == seq);
            }
            if on_page(lines, seq) {
                let i = choose|i: int| 0 <= i < lines.len() && (#[trigger] lines[i]).seq == seq;
                assert(rest[i - 1].seq == seq);
            }
        }
    }
}

proof fn lemma_last_with(lines: Seq<TraceLine>, seq: u32)
    ensures
        last_with(lines, seq) is Some == on_page(lines, seq),
        last_with(lines, seq) matches Some(l) ==> l.seq == seq,
    decreases lines.len(),
{
    if lines.len() > 0 {
        let rest = lines.drop_last();
        lemma_last_with(rest, seq);
        if lines.last().seq != seq {
            if on_page(rest, seq) {
                let i = choose|i: int| 0 <= i < rest.len() && (#[trigger] rest[i]).seq == seq;
                assert(lines[i].seq == seq);
            }
            if on_page(lines, seq) {
                let i = choose|i: int| 0 <= i < lines.len() && (#[trigger] lines[i]).seq == seq;
                assert(rest[i].seq == seq);
            }
        }
    }
}

/// What an analysis started from is told in full: its sources one behind the other, whether it
/// followed data only, and the lines between which it ran, as far as they were given.
pub proof fn law_the_origin_is_told_in_full(o: SliceOrigin)
    ensures
        origin_words(o) == "taint from "@ + joined(texts(o.from_specs@), ", "@) + ", data_only="@ + (
        if o.data_only {
            "true"@
        } else {
            "false"@
        }) + (match o.start_seq {
            Some(n) => ", start_seq="@ + numeral(n as nat, 10),
            None => Seq::empty(),
        }) + (match o.end_seq {
            Some(n) => ", end_seq="@ + numeral(n as nat, 10),
            None => Seq::empty(),
        }),
{
}

/// The tainted lines that are kept are, in order, those that do not only move the stack, where these
/// are to be left out, and that lie in the address range, where there is one.
pub proof fn law_which_tainted_lines_are_kept(
    lines: Seq<TraceLine>,
    ignore_stack_ops: bool,
    range: Option<String>,
    l: TraceLine,
)
    ensures
        match tainted_kept(lines, ignore_stack_ops, range) {
            Ok(kept) => kept.contains(l) <==> {
                &&& lines.contains(l)
                &&& ignore_stack_ops ==> !crate::tools::lines::stack_only(l.changes@)
                &&& range matches Some(text) ==> (crate::ranges::addr_range(text@) matches Ok(ends)
                    && crate::tools::lines::in_addr_range(l, ends.0, ends.1))
            },
            Err(e) => range matches Some(text) && crate::ranges::addr_range(text@) == Err::<
                (u64, u64),
                Seq<char>,
            >(e),
        },
        !ignore_stack_ops && range is None ==> tainted_kept(lines, ignore_stack_ops, range) == Ok::<
            Seq<TraceLine>,
            Seq<char>,
        >(lines),
        after_stack_filter(lines, true) == without_stack_ops(lines),
        after_stack_filter(lines, false) == lines,
{
    law_only_stack_changes_are_left_out(lines);
    let some = after_stack_filter(lines, ignore_stack_ops);
    assert(some.contains(l) <==> lines.contains(l) && (ignore_stack_ops
        ==> !crate::tools::lines::stack_only(l.changes@)));
    if let Some(text) = range {
        law_addr_filter_keeps_the_range(some, text);
    }
}

/// A page of tainted lines starts at the offset asked for and has as many lines as asked for, 200 at
/// most, as far as there are any; and an analysis shows as many as asked for, 200 at most.
pub proof fn law_tainted_pages(
    kept: Seq<TraceLine>,
    req: GetTaintedLinesRequest,
    analysis: TaintAnalysisRequest,
)
    ensures
        ({
            let page = page_of(
                kept,
                req.offset as int,
                min_of(req.limit as int, MAX_TAINTED as int),
            );
            let most = if req.limit < 200 {
                req.limit as int
            } else {
                200
            };
            &&& page.len() == if req.offset >= kept.len() {
                0
            } else if req.offset + most <= kept.len() {
                most
            } else {
                kept.len() - req.offset
            }
            &&& forall|i: int| 0 <= i < page.len() ==> #[trigger] page[i] == kept[req.offset + i]
        }),
        lines_wanted(analysis) == if analysis.include_lines < 200 {
            analysis.include_lines as int
        } else {
            200
        },
{
}

/// Round the lines of a page lie the numbers that are as many lines away from one of them as the
/// request asks for, five at most. They are shown only where some are asked for and the page has a
/// line.
pub proof fn law_how_wide_the_context_is(
    req: GetTaintedLinesRequest,
    page: Seq<TraceLine>,
    ctx: int,
    seq: u32,
)
    ensures
        context_width(req) == if req.context_lines < 5 {
            req.context_lines as int
        } else {
            5
        },
        shows_context(req, page) <==> req.context_lines > 0 && page.len() > 0,
        near(page, ctx, seq) <==> exists|i: int|
            0 <= i < page.len() && (#[trigger] page[i]).seq <= seq + ctx && seq <= page[i].seq + ctx,
        on_page(page, seq) <==> exists|i: int| 0 <= i < page.len() && (#[trigger] page[i]).seq == seq,
{
}

/// The line shown for a number is the first one of the page that has the number, and where the page
/// has none, the last one of the others that has it.
pub proof fn law_which_line_is_shown_for_a_number(
    page: Seq<TraceLine>,
    extra: Seq<TraceLine>,
    seq: u32,
    i: int,
)
    ensures
        0 <= i < page.len() && page[i].seq == seq && (forall|j: int|
            0 <= j < i ==> (#[trigger] page[j]).seq != seq) ==> line_for(page, extra, seq) == Some(
            page[i],
        ),
        !on_page(page, seq) && 0 <= i < extra.len() && extra[i].seq == seq && (forall|j: int|
            i < j < extra.len() ==> (#[trigger] extra[j]).seq != seq) ==> line_for(page, extra, seq)
            == Some(extra[i]),
        line_for(page, extra, seq) is Some <==> on_page(page, seq) || on_page(extra, seq),
{
    lemma_first_with(page, seq);
    lemma_last_with(extra, seq);
    if 0 <= i < page.len() && page[i].seq == seq && (forall|j: int|
        0 <= j < i ==> (#[trigger] page[j]).seq != seq) {
        lemma_first_at(page, seq, i);
    }
    if 0 <= i < extra.len() && extra[i].seq == seq && (forall|j: int|
        i < j < extra.len() ==> (#[trigger] extra[j]).seq != seq) {
        lemma_last_at(extra, seq, i);
    }
}

proof fn lemma_first_at(lines: Seq<TraceLine>, seq: u32, i: int)
    requires
        0 <= i < lines.len(),
        lines[i].seq == seq,
        forall|j: int| 0 <= j < i ==> (#[trigger] lines[j]).seq != seq,
    ensures
        first_with(lines, seq) == Some(lines[i]),
    decreases lines.len(),
{
    if i > 0 {
        assert(lines[0].seq != seq);
        let rest = lines.drop_first();
        assert forall|j: int| 0 <= j < i - 1 implies (#[trigger] rest[j]).seq != seq by {
            assert(rest[j] == lines[j + 1]);
        }
        lemma_first_at(rest, seq, i - 1);
    }
}

proof fn lemma_last_at(lines: Seq<TraceLine>, seq: u32, i: int)
    requires
        0 <= i < lines.len(),
        lines[i].seq == seq,
        forall|j: int| i < j < lines.len() ==> (#[trigger] lines[j]).seq != seq,
    ensures
        last_with(lines, seq) == Some(lines[i]),
    decreases lines.len(),
{
    if i < lines.len() - 1 {
        assert(lines[lines.len() - 1].seq != seq);
        let rest = lines.drop_last();
        assert forall|j: int| i < j < rest.len() implies (#[trigger] rest[j]).seq != seq by {
            assert(rest[j] == lines[j]);
        }
        lemma_last_at(rest, seq, i);
    }
}

/// The lines shown for numbers are, in the order of the numbers, one for each number that a line of
/// the page or another loaded line has: that line, shown as asked for.
pub proof fn law_every_number_with_a_line_is_shown(
    page: Seq<TraceLine>,
    extra: Seq<TraceLine>,
    tainted: Set<u32>,
    seqs: Seq<u32>,
    full: bool,
)
    ensures
        ({
            let with_line = seqs.filter(|seq: u32| on_page(page, seq) || on_page(extra, seq));
            let shown = marked_lines(page, extra, tainted, seqs, full);
            &&& shown.len() == with_line.len()
            &&& forall|i: int|
                0 <= i < shown.len() ==> (#[trigger] shown[i]).line == shown_line(
                    line_for(page, extra, with_line[i]).unwrap(),
                    full,
                ) && shown_number(shown[i].line) == with_line[i] && shown[i].tainted == Some(
                    tainted.contains(with_line[i]),
                )
        }),
    decreases seqs.len(),
{
    let keep = |seq: u32| on_page(page, seq) || on_page(extra, seq);
    let n = seqs.len() as int;
    lemma_filter_ends(seqs, keep);
    if n > 0 {
        let (rest, last) = (seqs.drop_last(), seqs.last());
        law_every_number_with_a_line_is_shown(page, extra, tainted, rest, full);
        lemma_filter_step(seqs, keep, n - 1);
        assert(seqs.take(n - 1) =~= rest);
        lemma_first_with(page, last);
        lemma_last_with(extra, last);
        assert(seqs.filter(keep) == if keep(last) {
            rest.filter(keep).push(last)
        } else {
            rest.filter(keep)
        });
    } else {
        assert(seqs =~= seqs.take(0));
    }
}

/// Without the lines round them, the lines of the page are shown one for one and unmarked.
pub proof fn law_a_page_alone_is_unmarked(page: Seq<TraceLine>, full: bool, i: int)
    requires
        0 <= i < page.len(),
    ensures
        unmarked_lines(page, full).len() == page.len(),
        unmarked_lines(page, full)[i].tainted is None,
        unmarked_lines(page, full)[i].line == shown_line(page[i], full),
        shown_number(unmarked_lines(page, full)[i].line) == page[i].seq,
{
}

/// An analysis of which only the numbers are wanted shows no line and says that there are some
/// exactly if it marked one; one that marked nothing shows nothing and says that there is no more.
pub proof fn law_answers_without_lines(r: TaintAnalysisResponse, stats: TaintStats)
    ensures
        is_numbers_only(r, stats) ==> {
            &&& r.stats == stats
            &&& r.lines@.len() == 0
            &&& r.count == 0
            &&& r.total_after_filter == stats.marked_count
            &&& r.stack_ops_filtered == 0
            &&& r.has_more <==> stats.marked_count > 0
            &&& r.hint matches Some(h) && h@
                == "Use get_tainted_lines to retrieve tainted instructions."@
        },
        is_nothing_marked(r, stats) ==> {
            &&& r.stats == stats
            &&& r.lines@.len() == 0
            &&& r.count == 0
            &&& r.total_after_filter == 0
            &&& r.stack_ops_filtered == 0
            &&& !r.has_more
            &&& r.hint is None
        },
{
}

/// The answer to a request for tainted lines says that there are more exactly if the page after it
/// has a line, and tells how many there are, how many the filters left and how many of the others
/// only move the stack.
pub proof fn law_the_tainted_lines_go_on(
    req: GetTaintedLinesRequest,
    total_tainted: u32,
    lines: Vec<TraceLine>,
    page: TaintedPage,
    tainted: Vec<u32>,
    origin: Option<SliceOrigin>,
    extra: Vec<TraceLine>,
    r: TaintedLinesResponse,
)
    requires
        lines@.len() <= total_tainted,
        req.limit > 0,
        call_ensures(
            tainted_page,
            (&req, total_tainted, lines),
            Ok::<TaintedPage, String>(page),
        ),
        call_ensures(tainted_response, (&req, &page, &tainted, &origin, &extra), r),
    ensures
        ({
            let kept = tainted_kept(lines@, req.ignore_stack_ops, req.addr_range)->Ok_0;
            &&& tainted_kept(lines@, req.ignore_stack_ops, req.addr_range) is Ok
            &&& r.count == page.lines@.len() <= 200
            &&& r.has_more <==> page_of(kept, req.offset + r.count, req.limit as int).len() > 0
            &&& r.total_tainted == total_tainted
            &&& r.total_after_filter == kept.len()
            &&& req.ignore_stack_ops ==> r.stack_ops_filtered + without_stack_ops(lines@).len()
                == total_tainted
            &&& !req.ignore_stack_ops ==> r.stack_ops_filtered == 0
            &&& r.offset == req.offset
            &&& r.context is Some <==> origin is Some
            &&& r.context_lines is Some <==> req.context_lines > 0 && page.lines@.len() > 0
            &&& r.context_lines matches Some(n) ==> n <= 5 && n <= req.context_lines && (n == 5 || n
                == req.context_lines)
        }),
{
}

/// An analysis goes on to its lines exactly if the request wants some and some are tainted, and then
/// with the same numbers. What it shows with lines is counted, and it says that there are more
/// exactly if the filters left more than it shows.
pub proof fn law_how_an_analysis_goes_on(
    req: TaintAnalysisRequest,
    stats: TaintStats,
    seqs: Vec<u32>,
    lines: Vec<TraceLine>,
    first: AnalysisStep,
    second: AnalysisStep,
    r: Result<TaintAnalysisResponse, String>,
)
    requires
        lines@.len() <= u32::MAX,
        call_ensures(after_slice, (&req, stats), first),
        call_ensures(after_seqs, (stats, &seqs), second),
        call_ensures(analysis_with_lines, (&req, stats, lines), r),
    ensures
        first is GoOn <==> req.include_lines > 0,
        second is GoOn <==> seqs@.len() > 0,
        first matches AnalysisStep::GoOn(s) ==> s == stats,
        second matches AnalysisStep::GoOn(s) ==> s == stats,
        r is Ok <==> tainted_kept(lines@, req.ignore_stack_ops, req.addr_range) is Ok,
        r matches Ok(res) ==> {
            let kept = tainted_kept(lines@, req.ignore_stack_ops, req.addr_range)->Ok_0;
            &&& res.stats == stats
            &&& res.count == res.lines@.len()
            &&& res.count == if kept.len() < req.include_lines && kept.len() < 200 {
                kept.len() as int
            } else if req.include_lines < 200 {
                req.include_lines as int
            } else {
                200
            }
            &&& forall|i: int|
                0 <= i < res.lines@.len() ==> #[trigger] res.lines@[i] == shown_line(kept[i], false)
            &&& res.total_after_filter == kept.len()
            &&& res.has_more <==> res.count < kept.len()
            &&& req.ignore_stack_ops ==> res.stack_ops_filtered + without_stack_ops(lines@).len()
                == lines@.len()
            &&& !req.ignore_stack_ops ==> res.stack_ops_filtered == 0
        },
{
}

} // verus!
