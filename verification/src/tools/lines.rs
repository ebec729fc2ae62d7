//! Lines as the tools show them, and which of them they leave out.

use vstd::prelude::*;

use crate::api_types::{clone_text, TraceLine};
use crate::ranges::{addr_range, hex_addr, parse_addr_range, parse_hex_addr};
use crate::scan::{lemma_filter_ends, lemma_filter_step};
use crate::text::{chars_of, decimal, law_numeral_reads_back, law_numerals_are_plain, numeral, pieces, spells, value_of, within, word_spans, words};

verus! {

/// The place of the first `c` in `s`; the length of `s` where there is none.
pub open spec fn place_of(s: Seq<char>, c: char) -> int
    decreases s.len(),
{
    if s.len() == 0 || s[0] == c {
        0
    } else {
        1 + place_of(s.drop_first(), c)
    }
}

proof fn lemma_place_of(s: Seq<char>, c: char, k: int)
    requires
        0 <= k <= s.len(),
        k < s.len() ==> s[k] == c,
        forall|j: int| 0 <= j < k ==> s[j] != c,
    ensures
        place_of(s, c) == k,
    decreases s.len(),
{
    if k > 0 {
        lemma_place_of(s.drop_first(), c, k - 1);
    }
}

/// The word is an assignment, such as `sp=0x10`.
pub open spec fn is_assignment(word: Seq<char>) -> bool {
    place_of(word, '=') < word.len()
}

/// What stands before the first `=` of a word.
pub open spec fn assigned(word: Seq<char>) -> Seq<char> {
    word.take(place_of(word, '='))
}

/// The names of the stack pointer and of the frame pointer.
pub open spec fn is_frame_register(name: Seq<char>) -> bool {
    name == "sp"@ || name == "x29"@ || name == "fp"@ || name == "wsp"@ || name == "w29"@
}

/// The changes of a line assign something, and nothing but the stack pointer or the frame
/// pointer.
pub open spec fn stack_only(changes: Seq<char>) -> bool {
    &&& exists|i: int| 0 <= i < words(changes).len() && is_assignment(#[trigger] words(changes)[i])
    &&& forall|i: int|
        0 <= i < words(changes).len() && is_assignment(#[trigger] words(changes)[i])
            ==> is_frame_register(assigned(words(changes)[i]))
}

/// Whether the changes of a line touch the stack pointer and the frame pointer only.
pub fn is_stack_only_change(changes: &str) -> (b: bool)
    ensures
        b == stack_only(changes@),
{
    let cs = chars_of(changes);
    let spans = word_spans(&cs);
    let ghost ws = words(changes@);
    let mut has_any: bool = false;
    let mut i: usize = 0;
    assert(pieces(cs@, spans@).len() == spans@.len());
    while i < spans.len()
        invariant
            ws == words(changes@),
            cs@ == changes@,
            pieces(cs@, spans@) == ws,
            ws.len() == spans@.len(),
            forall|k: int| 0 <= k < spans@.len() ==> within(#[trigger] spans@[k], cs@.len() as int),
            i <= spans@.len(),
            has_any == exists|k: int| 0 <= k < i && is_assignment(#[trigger] ws[k]),
            forall|k: int|
                0 <= k < i && is_assignment(#[trigger] ws[k]) ==> is_frame_register(
                    assigned(ws[k]),
                ),
        decreases spans@.len() - i,
    {
        let (a, b): (usize, usize) = spans[i];
        let ghost w = ws[i as int];
        assert(within(spans@[i as int], cs@.len() as int));
        assert(pieces(cs@, spans@)[i as int] == cs@.subrange(a as int, b as int));
        let mut k: usize = a;
        while k < b && cs[k] != '='
            invariant
                a <= k <= b <= cs@.len(),
                forall|j: int| a <= j < k ==> cs@[j] != '=',
            decreases b - k,
        {
            k = k + 1;
        }
        proof {
            lemma_place_of(w, '=', k - a);
            assert(w.take(k - a) =~= cs@.subrange(a as int, k as int));
        }
        if k < b {
            assert(is_assignment(w));
            let reg = vstd::slice::slice_subrange(cs.as_slice(), a, k);
            if !(spells(reg, "sp") || spells(reg, "x29") || spells(reg, "fp") || spells(reg, "wsp")
                || spells(reg, "w29")) {
                assert(!is_frame_register(assigned(ws[i as int])));
                return false;
            }
            has_any = true;
        }
        i = i + 1;
    }
    has_any
}

/// The line lies at an offset from `start` to `end`.
pub open spec fn in_addr_range(line: TraceLine, start: u64, end: u64) -> bool {
    hex_addr(line.so_offset@) matches Ok(offset) && start <= offset <= end
}

/// Check if TraceLine's SO offset falls within an address range
pub fn line_in_addr_range(line: &TraceLine, start: u64, end: u64) -> (b: bool)
    ensures
        b == in_addr_range(*line, start, end),
{
    match parse_hex_addr(line.so_offset.as_str()) {
        Ok(offset) => start <= offset && offset <= end,
        Err(_) => false,
    }
}

/// A line with its main fields only. A field that is absent is not shown.
pub struct CompactLine {
    pub seq: u32,
    pub address: String,
    pub so_offset: Option<String>,
    pub disasm: String,
    pub changes: Option<String>,
    pub mem_rw: Option<String>,
    pub mem_addr: Option<String>,
    pub so_name: Option<String>,
    pub func_name: Option<String>,
}

/// A text that is shown unless it is empty.
pub open spec fn unless_empty(s: String) -> Option<String> {
    if s@.len() == 0 {
        None
    } else {
        Some(s)
    }
}

/// The main fields of a line.
pub open spec fn compacted(line: TraceLine) -> CompactLine {
    CompactLine {
        seq: line.seq,
        address: line.address,
        so_offset: unless_empty(line.so_offset),
        disasm: line.disasm,
        changes: unless_empty(line.changes),
        mem_rw: line.mem_rw,
        mem_addr: line.mem_addr,
        so_name: line.so_name,
        func_name: match line.call_info {
            Some(info) => unless_empty(info.func_name),
            None => None,
        },
    }
}

fn text_unless_empty(s: &String) -> (r: Option<String>)
    ensures
        r == unless_empty(*s),
{
    if s.as_str().is_empty() {
        None
    } else {
        Some(s.clone())
    }
}

/// Cuts a line down to its main fields.
pub fn compact_line(line: &TraceLine) -> (r: CompactLine)
    ensures
        r == compacted(*line),
{
    CompactLine {
        seq: line.seq,
        address: line.address.clone(),
        so_offset: text_unless_empty(&line.so_offset),
        disasm: line.disasm.clone(),
        changes: text_unless_empty(&line.changes),
        mem_rw: clone_text(&line.mem_rw),
        mem_addr: clone_text(&line.mem_addr),
        so_name: clone_text(&line.so_name),
        func_name: match &line.call_info {
            Some(info) => text_unless_empty(&info.func_name),
            None => None,
        },
    }
}

/// A line as it is shown.
pub enum ShownLine {
    /// With all its fields.
    Full(TraceLine),
    /// With its main fields.
    Compact(CompactLine),
}

/// How a line is shown.
pub open spec fn shown_line(line: TraceLine, full: bool) -> ShownLine {
    if full {
        ShownLine::Full(line)
    } else {
        ShownLine::Compact(compacted(line))
    }
}

/// How lines are shown.
pub open spec fn shown_lines(lines: Seq<TraceLine>, full: bool) -> Seq<ShownLine> {
    Seq::new(lines.len(), |i: int| shown_line(lines[i], full))
}

/// Shows a line.
pub fn format_line(line: &TraceLine, full: bool) -> (r: ShownLine)
    ensures
        r == shown_line(*line, full),
{
    if full {
        ShownLine::Full(line.clone())
    } else {
        ShownLine::Compact(compact_line(line))
    }
}

/// Shows lines.
pub fn format_lines(lines: &[TraceLine], full: bool) -> (r: Vec<ShownLine>)
    ensures
        r@ == shown_lines(lines@, full),
{
    let mut r: Vec<ShownLine> = Vec::new();
    let mut i: usize = 0;
    while i < lines.len()
        invariant
            i <= lines@.len(),
            r@ == shown_lines(lines@.take(i as int), full),
        decreases lines@.len() - i,
    {
        r.push(format_line(&lines[i], full));
        assert(r@ =~= shown_lines(lines@.take(i + 1), full));
        i = i + 1;
    }
    assert(lines@.take(lines@.len() as int) =~= lines@);
    r
}

/// The lines that change more than the stack pointer and the frame pointer.
pub open spec fn without_stack_ops(lines: Seq<TraceLine>) -> Seq<TraceLine> {
    lines.filter(|l: TraceLine| !stack_only(l.changes@))
}

/// Leaves out the lines that change the stack pointer and the frame pointer only.
pub fn drop_stack_ops(lines: Vec<TraceLine>) -> (r: Vec<TraceLine>)
    ensures
        r@ == without_stack_ops(lines@),
{
    let ghost keep = |l: TraceLine| !stack_only(l.changes@);
    let ghost all = lines@;
    let mut r: Vec<TraceLine> = Vec::new();
    proof {
        lemma_filter_ends(all, keep);
    }
    for line in it: lines.into_iter()
        invariant
            it.seq() == all,
            keep == (|l: TraceLine| !stack_only(l.changes@)),
            r@ == all.take(it.index() as int).filter(keep),
    {
        proof {
            lemma_filter_step(all, keep, it.index() as int);
        }
        if !is_stack_only_change(line.changes.as_str()) {
            r.push(line);
        }
    }
    r
}

/// The lines at offsets from `start` to `end`.
pub open spec fn within_addr_range(lines: Seq<TraceLine>, start: u64, end: u64) -> Seq<TraceLine> {
    lines.filter(|l: TraceLine| in_addr_range(l, start, end))
}

/// Leaves out the lines that do not lie at an offset from `start` to `end`.
pub fn keep_addr_range(lines: Vec<TraceLine>, start: u64, end: u64) -> (r: Vec<TraceLine>)
    ensures
        r@ == within_addr_range(lines@, start, end),
{
    let ghost keep = |l: TraceLine| in_addr_range(l, start, end);
    let ghost all = lines@;
    let mut r: Vec<TraceLine> = Vec::new();
    proof {
        lemma_filter_ends(all, keep);
    }
    for line in it: lines.into_iter()
        invariant
            it.seq() == all,
            keep == (|l: TraceLine| in_addr_range(l, start, end)),
            r@ == all.take(it.index() as int).filter(keep),
    {
        proof {
            lemma_filter_step(all, keep, it.index() as int);
        }
        if line_in_addr_range(&line, start, end) {
            r.push(line);
        }
    }
    r
}

/// The lines that an optional address range leaves, or what is wrong with the range.
pub open spec fn after_addr_filter(lines: Seq<TraceLine>, range: Option<String>) -> Result<
    Seq<TraceLine>,
    Seq<char>,
> {
    match range {
        None => Ok(lines),
        Some(text) => match addr_range(text@) {
            Ok((start, end)) => Ok(within_addr_range(lines, start, end)),
            Err(e) => Err(e),
        },
    }
}

/// Leaves out the lines outside an optional address range.
pub fn filter_by_addr(lines: Vec<TraceLine>, range: &Option<String>) -> (r: Result<
    Vec<TraceLine>,
    String,
>)
    ensures
        match r {
            Ok(kept) => after_addr_filter(lines@, *range) == Ok::<Seq<TraceLine>, Seq<char>>(
                kept@,
            ),
            Err(e) => after_addr_filter(lines@, *range) == Err::<Seq<TraceLine>, Seq<char>>(e@),
        },
{
    match range {
        None => Ok(lines),
        Some(text) => match parse_addr_range(text.as_str()) {
            Ok((start, end)) => Ok(keep_addr_range(lines, start, end)),
            Err(e) => Err(e),
        },
    }
}

/// An address range leaves exactly the lines at an offset in it, in their order.
pub proof fn law_addr_filter_keeps_the_range(lines: Seq<TraceLine>, range: String)
    ensures
        match addr_range(range@) {
            Ok((start, end)) => {
                let kept = after_addr_filter(lines, Some(range))->Ok_0;
                &&& after_addr_filter(lines, Some(range)) is Ok
                &&& kept.len() <= lines.len()
                &&& forall|i: int|
                    0 <= i < kept.len() ==> in_addr_range(#[trigger] kept[i], start, end)
                &&& forall|l: TraceLine| #[trigger]
                    kept.contains(l) <==> lines.contains(l) && in_addr_range(l, start, end)
            },
            Err(e) => after_addr_filter(lines, Some(range)) == Err::<Seq<TraceLine>, Seq<char>>(e),
        },
{
    if let Ok((start, end)) = addr_range(range@) {
        let keep = |l: TraceLine| in_addr_range(l, start, end);
        let kept = lines.filter(keep);
        lines.lemma_filter_len(keep);
        assert forall|i: int| 0 <= i < kept.len() implies in_addr_range(
            #[trigger] kept[i],
            start,
            end,
        ) by {
            lines.lemma_filter_pred(keep, i);
        }
        assert forall|l: TraceLine| #[trigger] kept.contains(l) <==> lines.contains(l)
            && in_addr_range(l, start, end) by {
            if kept.contains(l) {
                let i = choose|i: int| 0 <= i < kept.len() && kept[i] == l;
                lines.lemma_filter_pred(keep, i);
                lines.lemma_filter_contains_rev(keep, l);
            }
            if lines.contains(l) && keep(l) {
                let i = choose|i: int| 0 <= i < lines.len() && lines[i] == l;
                lines.lemma_filter_contains(keep, i);
            }
        }
    }
}

/// The word is the name, an equals sign, and something more.
pub open spec fn assigns(word: Seq<char>, name: Seq<char>) -> bool {
    !name.contains('=') && exists|rest: Seq<char>| word == #[trigger] (name + seq!['='] + rest)
}

proof fn lemma_place_is_first(s: Seq<char>, c: char)
    ensures
        0 <= place_of(s, c) <= s.len(),
        place_of(s, c) < s.len() ==> s[place_of(s, c)] == c,
        forall|j: int| 0 <= j < place_of(s, c) ==> s[j] != c,
    decreases s.len(),
{
    if s.len() > 0 && s[0] != c {
        let rest = s.drop_first();
        lemma_place_is_first(rest, c);
        assert forall|j: int| 0 <= j < place_of(s, c) implies s[j] != c by {
            if j > 0 {
                assert(rest[j - 1] == s[j]);
            }
        }
    }
}

proof fn lemma_assigns(word: Seq<char>, name: Seq<char>)
    ensures
        assigns(word, name) <==> is_assignment(word) && assigned(word) == name,
{
    let k = place_of(word, '=');
    lemma_place_is_first(word, '=');
    if assigns(word, name) {
        let rest = choose|rest: Seq<char>| word == #[trigger] (name + seq!['='] + rest);
        let n = name.len() as int;
        assert(word[n] == '=');
        assert forall|j: int| 0 <= j < n implies word[j] != '=' by {
            assert(word[j] == name[j]);
            assert(name.contains(name[j]));
        }
        lemma_place_of(word, '=', n);
        assert(word.take(n) =~= name);
    }
    if is_assignment(word) && assigned(word) == name {
        let rest = word.skip(k + 1);
        assert(word =~= name + seq!['='] + rest);
        assert(!name.contains('=')) by {
            if name.contains('=') {
                let j = choose|j: int| 0 <= j < name.len() && name[j] == '=';
                assert(word[j] == name[j]);
            }
        }
    }
}

/// A line is taken to change the stack only where its changes assign something and every name that
/// they assign is one of `sp`, `x29`, `fp`, `wsp` and `w29`, letter for letter.
pub proof fn law_stack_changes_assign_five_names_only(changes: Seq<char>)
    ensures
        stack_only(changes) <==> {
            &&& exists|i: int, name: Seq<char>|
                0 <= i < words(changes).len() && #[trigger] assigns(words(changes)[i], name)
            &&& forall|i: int, name: Seq<char>|
                0 <= i < words(changes).len() && #[trigger] assigns(words(changes)[i], name) ==> (
                name == seq!['s', 'p'] || name == seq!['x', '2', '9'] || name == seq!['f', 'p']
                    || name == seq!['w', 's', 'p'] || name == seq!['w', '2', '9'])
        },
{
    let ws = words(changes);
    reveal_strlit("sp");
    reveal_strlit("x29");
    reveal_strlit("fp");
    reveal_strlit("wsp");
    reveal_strlit("w29");
    assert("sp"@ =~= seq!['s', 'p']);
    assert("x29"@ =~= seq!['x', '2', '9']);
    assert("fp"@ =~= seq!['f', 'p']);
    assert("wsp"@ =~= seq!['w', 's', 'p']);
    assert("w29"@ =~= seq!['w', '2', '9']);
    assert forall|i: int, name: Seq<char>| 0 <= i < ws.len() implies (#[trigger] assigns(
        ws[i],
        name,
    ) <==> is_assignment(ws[i]) && assigned(ws[i]) == name) by {
        lemma_assigns(ws[i], name);
    }
    assert forall|i: int| 0 <= i < ws.len() && is_assignment(#[trigger] ws[i]) implies assigns(
        ws[i],
        assigned(ws[i]),
    ) by {
        lemma_assigns(ws[i], assigned(ws[i]));
    }
}

/// A line that assigns a general register, `x0` to `x28` or `w0` to `w28`, is not taken to change
/// the stack only, whatever else it assigns.
pub proof fn law_general_registers_are_no_stack(
    changes: Seq<char>,
    i: int,
    bank: char,
    n: nat,
    rest: Seq<char>,
)
    requires
        0 <= i < words(changes).len(),
        bank == 'x' || bank == 'w',
        n < 29,
        words(changes)[i] == seq![bank] + decimal(n) + seq!['='] + rest,
    ensures
        !stack_only(changes),
{
    let name = seq![bank] + decimal(n);
    law_numerals_are_plain(n, 10);
    law_numeral_reads_back(n, 10);
    assert forall|j: int| 0 <= j < name.len() implies name[j] != '=' by {
        if j > 0 {
            assert(name[j] == numeral(n, 10)[j - 1]);
        }
    }
    assert(assigns(words(changes)[i], name)) by {
        assert(words(changes)[i] == name + seq!['='] + rest);
    }
    law_stack_changes_assign_five_names_only(changes);
    let digits = name.skip(1);
    assert(digits =~= decimal(n));
    if name == seq!['x', '2', '9'] || name == seq!['w', '2', '9'] {
        assert(digits =~= seq!['2', '9']);
        assert(value_of(digits, 10) == 29) by {
            reveal_with_fuel(value_of, 3);
            assert(digits.drop_last() =~= seq!['2']);
        }
    }
    if name == seq!['w', 's', 'p'] {
        assert(name[1] == 's');
        assert(numeral(n, 10)[0] == name[1]);
    }
    assert(name[0] == bank);
}

/// What is left of lines without the stack changes is every other line, in order.
pub proof fn law_only_stack_changes_are_left_out(lines: Seq<TraceLine>)
    ensures
        without_stack_ops(lines) == lines.filter(|l: TraceLine| !stack_only(l.changes@)),
        forall|l: TraceLine| #[trigger]
            without_stack_ops(lines).contains(l) <==> lines.contains(l) && !stack_only(l.changes@),
{
    let keep = |l: TraceLine| !stack_only(l.changes@);
    let kept = lines.filter(keep);
    assert forall|l: TraceLine| #[trigger] kept.contains(l) <==> lines.contains(l) && !stack_only(
        l.changes@,
    ) by {
        if kept.contains(l) {
            let i = choose|i: int| 0 <= i < kept.len() && kept[i] == l;
            lines.lemma_filter_pred(keep, i);
            lines.lemma_filter_contains_rev(keep, l);
        }
        if lines.contains(l) && keep(l) {
            let i = choose|i: int| 0 <= i < lines.len() && lines[i] == l;
            lines.lemma_filter_contains(keep, i);
        }
    }
}

/// A line lies in an address range exactly if its offset can be read as a number that is not below
/// the first address nor above the last; both ends belong to the range. Without a range, no line is
/// left out.
pub proof fn law_addr_range_holds_both_ends(
    line: TraceLine,
    start: u64,
    end: u64,
    lines: Seq<TraceLine>,
)
    ensures
        in_addr_range(line, start, end) <==> match hex_addr(line.so_offset@) {
            Ok(offset) => start <= offset && offset <= end,
            Err(_) => false,
        },
        after_addr_filter(lines, None) == Ok::<Seq<TraceLine>, Seq<char>>(lines),
        within_addr_range(lines, start, end) == lines.filter(
            |l: TraceLine| in_addr_range(l, start, end),
        ),
{
}

/// A line shown in full is the line. Shown with its main fields it has the number, the address and
/// the instruction, the names and memory fields that the line has, and the offset, the changes and
/// the name of the called function wherever these are not empty; and nothing else. Lines are shown
/// one for one.
pub proof fn law_compact_lines_hide_only_what_is_empty(lines: Seq<TraceLine>, i: int)
    requires
        0 <= i < lines.len(),
    ensures
        shown_lines(lines, true).len() == lines.len(),
        shown_lines(lines, false).len() == lines.len(),
        shown_lines(lines, true)[i] == ShownLine::Full(lines[i]),
        shown_lines(lines, false)[i] matches ShownLine::Compact(c) && {
            &&& c == compacted(lines[i])
            &&& c.seq == lines[i].seq
            &&& c.address == lines[i].address
            &&& c.disasm == lines[i].disasm
            &&& c.mem_rw == lines[i].mem_rw
            &&& c.mem_addr == lines[i].mem_addr
            &&& c.so_name == lines[i].so_name
            &&& c.so_offset is Some <==> lines[i].so_offset@.len() > 0
            &&& c.so_offset is Some ==> c.so_offset == Some(lines[i].so_offset)
            &&& c.changes is Some <==> lines[i].changes@.len() > 0
            &&& c.changes is Some ==> c.changes == Some(lines[i].changes)
            &&& c.func_name is Some <==> (lines[i].call_info matches Some(info)
                && info.func_name@.len() > 0)
            &&& c.func_name is Some ==> c.func_name == Some(lines[i].call_info->0.func_name)
        },
        shown_line(lines[i], true) == shown_lines(lines, true)[i],
        shown_line(lines[i], false) == shown_lines(lines, false)[i],
{
}

} // verus!
