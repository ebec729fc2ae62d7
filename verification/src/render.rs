//! How a found line is shown, and which part of it is hidden.

use vstd::prelude::*;
use vstd::string::*;
use vstd::utf8::*;

use crate::api_types::{clone_text, CallInfoDto, SearchMatch, TraceLine};
use crate::matching::{found_in, law_found_in_longer_text, matches_mode_str, ModeView, SearchMode};
use crate::scan::{first_of, lemma_filter_ends, lemma_filter_step};
use crate::text::{chars_of, joined};

verus! {

/// What is known of the call made at a line.
pub struct CallAnnotation {
    pub func_name: String,
    pub is_jni: bool,
    pub summary: String,
    pub tooltip: String,
}

/// `parts` with `part` after them, unless `part` is empty.
pub open spec fn and_then_part(parts: Seq<Seq<char>>, part: Seq<char>) -> Seq<Seq<char>> {
    if part.len() == 0 {
        parts
    } else {
        parts.push(part)
    }
}

/// The characters of an optional text, none where it is absent.
pub open spec fn text_or_empty(s: Option<&str>) -> Seq<char> {
    match s {
        Some(t) => t@,
        None => Seq::empty(),
    }
}

/// The parts of a line that are shown, those that are empty left out: the memory access, the
/// address, the disassembly, the call and the changes.
pub open spec fn shown_parts(
    address: Seq<char>,
    disasm: Seq<char>,
    changes: Seq<char>,
    mem_rw: Seq<char>,
    call_summary: Seq<char>,
) -> Seq<Seq<char>> {
    and_then_part(
        and_then_part(
            and_then_part(
                and_then_part(and_then_part(Seq::empty(), mem_rw), address),
                disasm,
            ),
            call_summary,
        ),
        changes,
    )
}

fn add_part(text: &mut String, empty: &mut bool, part: &str, parts: Ghost<Seq<Seq<char>>>)
    requires
        old(text)@ == joined(parts@, "\n"@),
        *old(empty) == (parts@.len() == 0),
    ensures
        final(text)@ == joined(and_then_part(parts@, part@), "\n"@),
        *final(empty) == (and_then_part(parts@, part@).len() == 0),
{
    if !part.is_empty() {
        let ghost longer = parts@.push(part@);
        assert(longer.drop_last() =~= parts@);
        if *empty {
            assert(text@ + part@ =~= part@);
        } else {
            text.append("\n");
        }
        text.append(part);
        *empty = false;
    }
}

/// The text of a line as it is shown, one part to a line.
pub fn rendered_search_text(
    address: &str,
    disasm: &str,
    changes: &str,
    mem_rw: Option<&str>,
    call_summary: Option<&str>,
) -> (r: String)
    ensures
        r@ == joined(
            shown_parts(
                address@,
                disasm@,
                changes@,
                text_or_empty(mem_rw),
                text_or_empty(call_summary),
            ),
            "\n"@,
        ),
{
    let ghost mut parts: Seq<Seq<char>> = Seq::empty();
    let mut text = String::new();
    let mut empty: bool = true;
    if let Some(rw) = mem_rw {
        add_part(&mut text, &mut empty, rw, Ghost(parts));
    }
    proof {
        parts = and_then_part(parts, text_or_empty(mem_rw));
    }
    add_part(&mut text, &mut empty, address, Ghost(parts));
    proof {
        parts = and_then_part(parts, address@);
    }
    add_part(&mut text, &mut empty, disasm, Ghost(parts));
    proof {
        parts = and_then_part(parts, disasm@);
    }
    if let Some(summary) = call_summary {
        add_part(&mut text, &mut empty, summary, Ghost(parts));
    }
    proof {
        parts = and_then_part(parts, text_or_empty(call_summary));
    }
    add_part(&mut text, &mut empty, changes, Ghost(parts));
    text
}

/// How many characters of a summary are shown.
pub const SUMMARY_WIDTH: usize = 80;

/// The part of a summary that is shown.
pub open spec fn shown_summary(summary: Seq<char>) -> Seq<char> {
    first_of(summary, SUMMARY_WIDTH as int)
}

/// The part of `summary` that is shown: its first 80 characters.
pub fn display_summary<'a>(summary: &'a str) -> (r: &'a str)
    ensures
        r@ == shown_summary(summary@),
{
    if chars_of(summary).len() > SUMMARY_WIDTH {
        let r = summary.substring_char(0, SUMMARY_WIDTH);
        assert(r@ =~= shown_summary(summary@));
        r
    } else {
        summary
    }
}

/// The shown part of a summary is a beginning of it, of 80 characters at most, and all of it where
/// it has no more.
pub proof fn law_shown_summary_is_a_beginning(summary: Seq<char>)
    ensures
        shown_summary(summary).len() <= 80,
        summary.len() <= 80 ==> shown_summary(summary) == summary,
        shown_summary(summary).is_prefix_of(summary),
{
}

/// The parts of a line that are shown, with the part of the summary that is.
pub open spec fn parts_on_screen(line: TraceLine, note: CallAnnotation) -> Seq<Seq<char>> {
    shown_parts(
        line.address@,
        line.disasm@,
        line.changes@,
        match line.mem_rw {
            Some(rw) => rw@,
            None => Seq::empty(),
        },
        shown_summary(note.summary@),
    )
}

/// Where a call is annotated and its search text, but nothing that is shown of the line, holds
/// what is looked for, the tooltip (unless it is empty) is what would otherwise stay hidden.
pub open spec fn hidden_content(
    mode: ModeView,
    line: TraceLine,
    note: CallAnnotation,
    call_text: Option<String>,
) -> Option<String> {
    let shown = joined(parts_on_screen(line, note), "\n"@);
    if (call_text matches Some(t) && found_in(mode, encode_utf8(t@))) && !found_in(
        mode,
        encode_utf8(shown),
    ) && note.tooltip@.len() > 0 {
        Some(note.tooltip)
    } else {
        None
    }
}

proof fn lemma_encode_joins(a: Seq<char>, b: Seq<char>)
    ensures
        encode_utf8(a + b) == encode_utf8(a) + encode_utf8(b),
    decreases a.len(),
{
    if a.len() == 0 {
        assert(a + b =~= b);
        assert(encode_utf8(a) + encode_utf8(b) =~= encode_utf8(b));
    } else {
        lemma_encode_joins(a.drop_first(), b);
        assert((a + b).drop_first() =~= a.drop_first() + b);
        assert((a + b)[0] == a[0]);
        assert(encode_utf8(a + b) =~= encode_utf8(a) + encode_utf8(b));
    }
}

proof fn lemma_part_is_found(mode: ModeView, parts: Seq<Seq<char>>, sep: Seq<char>, i: int)
    requires
        !(mode is Regex),
        0 <= i < parts.len(),
        found_in(mode, encode_utf8(parts[i])),
    ensures
        found_in(mode, encode_utf8(joined(parts, sep))),
    decreases parts.len(),
{
    if parts.len() > 1 {
        let front = joined(parts.drop_last(), sep);
        let (before, text, after) = if i < parts.len() - 1 {
            lemma_part_is_found(mode, parts.drop_last(), sep, i);
            (Seq::<char>::empty(), front, sep + parts.last())
        } else {
            (front + sep, parts.last(), Seq::<char>::empty())
        };
        assert(joined(parts, sep) =~= before + text + after);
        lemma_encode_joins(before, text);
        lemma_encode_joins(before + text, after);
        law_found_in_longer_text(
            mode,
            encode_utf8(before),
            encode_utf8(text),
            encode_utf8(after),
        );
    }
}

/// Hidden content is the tooltip of the call. It is there only where the search text of the call
/// holds what is looked for; and where a text is looked for, never where one of the shown parts of
/// the line holds it.
pub proof fn law_hidden_content_is_not_shown(
    mode: ModeView,
    line: TraceLine,
    note: CallAnnotation,
    call_text: Option<String>,
)
    ensures
        hidden_content(mode, line, note, call_text) matches Some(t) ==> {
            &&& t == note.tooltip
            &&& t@.len() > 0
            &&& call_text matches Some(c)
            &&& found_in(mode, encode_utf8(c@))
            &&& !(mode is Regex) ==> forall|i: int|
                0 <= i < parts_on_screen(line, note).len() ==> !found_in(
                    mode,
                    encode_utf8(#[trigger] parts_on_screen(line, note)[i]),
                )
        },
{
    let parts = parts_on_screen(line, note);
    if hidden_content(mode, line, note, call_text) is Some && !(mode is Regex) {
        assert forall|i: int| 0 <= i < parts.len() implies !found_in(
            mode,
            encode_utf8(#[trigger] parts[i]),
        ) by {
            if found_in(mode, encode_utf8(parts[i])) {
                lemma_part_is_found(mode, parts, "\n"@, i);
            }
        }
    }
}

/// A found line as a client sees it.
pub open spec fn match_of(
    mode: ModeView,
    line: TraceLine,
    note: Option<CallAnnotation>,
    call_text: Option<String>,
) -> SearchMatch {
    SearchMatch {
        seq: line.seq,
        address: line.address,
        so_offset: line.so_offset,
        so_name: line.so_name,
        disasm: line.disasm,
        changes: line.changes,
        reg_before: line.reg_before,
        mem_rw: line.mem_rw,
        call_info: match note {
            Some(n) => Some(
                CallInfoDto {
                    func_name: n.func_name,
                    is_jni: n.is_jni,
                    summary: n.summary,
                    tooltip: n.tooltip,
                },
            ),
            None => None,
        },
        hidden_content: match note {
            Some(n) => hidden_content(mode, line, n, call_text),
            None => None,
        },
    }
}

/// Shows a found line: with the call made there, and with the text that holds the match where
/// that text is not shown.
pub fn search_match(
    mode: &SearchMode,
    line: &TraceLine,
    note: Option<&CallAnnotation>,
    call_text: Option<&String>,
) -> (r: SearchMatch)
    ensures
        r == match_of(
            mode@,
            *line,
            match note {
                Some(n) => Some(*n),
                None => None,
            },
            match call_text {
                Some(t) => Some(*t),
                None => None,
            },
        ),
{
    let mut hidden: Option<String> = None;
    let call_info: Option<CallInfoDto> = match note {
        None => None,
        Some(n) => {
            let rendered = rendered_search_text(
                line.address.as_str(),
                line.disasm.as_str(),
                line.changes.as_str(),
                match &line.mem_rw {
                    Some(rw) => Some(rw.as_str()),
                    None => None,
                },
                Some(display_summary(n.summary.as_str())),
            );
            let annotation_match: bool = match call_text {
                Some(t) => matches_mode_str(mode, t.as_str()),
                None => false,
            };
            if annotation_match && !matches_mode_str(mode, rendered.as_str())
                && !n.tooltip.as_str().is_empty() {
                hidden = Some(n.tooltip.clone());
            }
            Some(
                CallInfoDto {
                    func_name: n.func_name.clone(),
                    is_jni: n.is_jni,
                    summary: n.summary.clone(),
                    tooltip: n.tooltip.clone(),
                },
            )
        },
    };
    SearchMatch {
        seq: line.seq,
        address: line.address.clone(),
        so_offset: line.so_offset.clone(),
        so_name: clone_text(&line.so_name),
        disasm: line.disasm.clone(),
        changes: line.changes.clone(),
        reg_before: line.reg_before.clone(),
        mem_rw: clone_text(&line.mem_rw),
        call_info,
        hidden_content: hidden,
    }
}

/// Of a line are shown, in this order, the memory access, the address, the disassembly, the call
/// and the changes, except those that are empty.
pub proof fn law_shown_parts_are_in_order(
    address: Seq<char>,
    disasm: Seq<char>,
    changes: Seq<char>,
    mem_rw: Seq<char>,
    call_summary: Seq<char>,
)
    ensures
        shown_parts(address, disasm, changes, mem_rw, call_summary) == seq![
            mem_rw,
            address,
            disasm,
            call_summary,
            changes,
        ].filter(|part: Seq<char>| part.len() > 0),
        text_or_empty(None).len() == 0,
        forall|t: &str| text_or_empty(Some(t)) == t@,
{
    let all = seq![mem_rw, address, disasm, call_summary, changes];
    let keep = |part: Seq<char>| part.len() > 0;
    lemma_filter_ends(all, keep);
    lemma_filter_step(all, keep, 0);
    lemma_filter_step(all, keep, 1);
    lemma_filter_step(all, keep, 2);
    lemma_filter_step(all, keep, 3);
    lemma_filter_step(all, keep, 4);
}

/// Of a summary of 80 characters or more, the first 80 are shown; of a shorter one, all.
pub proof fn law_eighty_characters_are_shown(summary: Seq<char>)
    ensures
        shown_summary(summary).len() == if summary.len() < 80 {
            summary.len() as int
        } else {
            80
        },
        forall|i: int|
            0 <= i < shown_summary(summary).len() ==> #[trigger] shown_summary(summary)[i]
                == summary[i],
{
}

/// What is to be seen of a line and of the call made there: one part to a line, the empty ones left
/// out, and 80 characters of the summary at most.
pub open spec fn text_on_screen(line: TraceLine, note: CallAnnotation) -> Seq<char> {
    let rw = match line.mem_rw {
        Some(rw) => rw@,
        None => Seq::empty(),
    };
    let summary = if note.summary@.len() > 80 {
        note.summary@.take(80)
    } else {
        note.summary@
    };
    joined(
        seq![rw, line.address@, line.disasm@, summary, line.changes@].filter(
            |part: Seq<char>| part.len() > 0,
        ),
        seq!['\n'],
    )
}

/// The tooltip of a call is told as hidden content exactly if it is not empty, the search text of
/// the call holds what is looked for, and what is to be seen of the line does not. A line without a
/// call has no hidden content.
pub proof fn law_when_content_is_hidden(
    mode: ModeView,
    line: TraceLine,
    note: CallAnnotation,
    text: String,
)
    ensures
        match_of(mode, line, Some(note), Some(text)).hidden_content == if note.tooltip@.len() > 0
            && found_in(mode, encode_utf8(text@)) && !found_in(
            mode,
            encode_utf8(text_on_screen(line, note)),
        ) {
            Some(note.tooltip)
        } else {
            None
        },
        match_of(mode, line, Some(note), None).hidden_content is None,
        match_of(mode, line, None, Some(text)).hidden_content is None,
        match_of(mode, line, None, None).hidden_content is None,
{
    reveal_strlit("\n");
    assert("\n"@ =~= seq!['\n']);
    let rw = match line.mem_rw {
        Some(rw) => rw@,
        None => Seq::empty(),
    };
    let summary = shown_summary(note.summary@);
    law_shown_parts_are_in_order(line.address@, line.disasm@, line.changes@, rw, summary);
    assert(joined(parts_on_screen(line, note), "\n"@) == text_on_screen(line, note));
}

/// A found line is shown as it was read, and with the call made there as it is known.
pub proof fn law_a_found_line_is_shown_as_it_is(
    mode: ModeView,
    line: TraceLine,
    note: Option<CallAnnotation>,
    call_text: Option<String>,
)
    ensures
        ({
            let m = match_of(mode, line, note, call_text);
            &&& m.seq == line.seq
            &&& m.address == line.address
            &&& m.so_offset == line.so_offset
            &&& m.so_name == line.so_name
            &&& m.disasm == line.disasm
            &&& m.changes == line.changes
            &&& m.reg_before == line.reg_before
            &&& m.mem_rw == line.mem_rw
            &&& m.call_info is Some <==> note is Some
            &&& note matches Some(n) ==> {
                let info = m.call_info->0;
                &&& info.func_name == n.func_name
                &&& info.is_jni == n.is_jni
                &&& info.summary == n.summary
                &&& info.tooltip == n.tooltip
            }
        }),
{
}

} // verus!
