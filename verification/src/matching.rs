//! What a search looks for, and whether a text holds it.

use vstd::prelude::*;
use vstd::string::*;
use vstd::utf8::*;

use crate::error::{ErrorView, TraceError};
use crate::pattern::{regex_error, regex_finds, LinePattern};
use crate::text::{ascii_lowered, chars_of, lowercase, pieces, within, word_spans, words};

verus! {

/// `b` with an ASCII capital made small.
pub open spec fn ascii_lower(b: u8) -> u8 {
    if 65 <= b <= 90 {
        (b + 32) as u8
    } else {
        b
    }
}

fn to_ascii_lower(b: u8) -> (r: u8)
    ensures
        r == ascii_lower(b),
{
    if 65 <= b && b <= 90 {
        b + 32
    } else {
        b
    }
}

/// `needle` stands in `hay` at `i`, small and capital ASCII letters taken as equal.
pub open spec fn folded_at(hay: Seq<u8>, needle: Seq<u8>, i: int) -> bool {
    &&& 0 <= i
    &&& i + needle.len() <= hay.len()
    &&& forall|j: int|
        0 <= j < needle.len() ==> ascii_lower(#[trigger] hay[i + j]) == ascii_lower(needle[j])
}

/// `needle` stands somewhere in `hay`, small and capital ASCII letters taken as equal.
pub open spec fn contains_folded(hay: Seq<u8>, needle: Seq<u8>) -> bool {
    exists|i: int| folded_at(hay, needle, i)
}

/// `needle` stands in `hay` at `i`.
pub open spec fn exact_at(hay: Seq<u8>, needle: Seq<u8>, i: int) -> bool {
    0 <= i && i + needle.len() <= hay.len() && hay.subrange(i, i + needle.len()) == needle
}

/// `needle` stands somewhere in `hay`.
pub open spec fn contains_exact(hay: Seq<u8>, needle: Seq<u8>) -> bool {
    exists|i: int| exact_at(hay, needle, i)
}

/// Whether `needle` stands in `haystack`, small and capital ASCII letters taken as equal.
pub fn ascii_contains(haystack: &[u8], needle: &[u8]) -> (b: bool)
    ensures
        b == contains_folded(haystack@, needle@),
{
    let n: usize = haystack.len();
    let m: usize = needle.len();
    if m > n {
        return false;
    }
    let mut i: usize = 0;
    while i <= n - m
        invariant
            n == haystack@.len(),
            m == needle@.len(),
            m <= n,
            i <= n - m + 1,
            forall|k: int| 0 <= k < i ==> !folded_at(haystack@, needle@, k),
        decreases n - m + 1 - i,
    {
        let mut j: usize = 0;
        while j < m && to_ascii_lower(haystack[i + j]) == to_ascii_lower(needle[j])
            invariant
                n == haystack@.len(),
                m == needle@.len(),
                i + m <= n,
                j <= m,
                forall|k: int|
                    0 <= k < j ==> ascii_lower(#[trigger] haystack@[i + k]) == ascii_lower(
                        needle@[k],
                    ),
            decreases m - j,
        {
            j = j + 1;
        }
        if j == m {
            assert(folded_at(haystack@, needle@, i as int));
            return true;
        }
        assert(ascii_lower(haystack@[i + j]) != ascii_lower(needle@[j as int]));
        assert(!folded_at(haystack@, needle@, i as int));
        i = i + 1;
    }
    false
}

/// Whether `needle` stands in `haystack`.
pub fn ascii_contains_sensitive(haystack: &[u8], needle: &[u8]) -> (b: bool)
    ensures
        b == contains_exact(haystack@, needle@),
{
    let n: usize = haystack.len();
    let m: usize = needle.len();
    if m > n {
        return false;
    }
    let mut i: usize = 0;
    while i <= n - m
        invariant
            n == haystack@.len(),
            m == needle@.len(),
            m <= n,
            i <= n - m + 1,
            forall|k: int| 0 <= k < i ==> !exact_at(haystack@, needle@, k),
        decreases n - m + 1 - i,
    {
        let mut j: usize = 0;
        while j < m && haystack[i + j] == needle[j]
            invariant
                n == haystack@.len(),
                m == needle@.len(),
                i + m <= n,
                j <= m,
                forall|k: int| 0 <= k < j ==> haystack@[i + k] == needle@[k],
            decreases m - j,
        {
            j = j + 1;
        }
        let ghost w = haystack@.subrange(i as int, i + m);
        if j == m {
            assert(w =~= needle@);
            assert(exact_at(haystack@, needle@, i as int));
            return true;
        }
        assert(w[j as int] == haystack@[i + j]);
        assert(!exact_at(haystack@, needle@, i as int));
        i = i + 1;
    }
    false
}

/// The byte strings in `v`, each taken by its bytes.
pub open spec fn byte_strings(v: Seq<Vec<u8>>) -> Seq<Seq<u8>> {
    Seq::new(v.len(), |i: int| v[i]@)
}

/// Every one of `tokens` stands somewhere in `hay`, letter case aside.
pub open spec fn contains_all(hay: Seq<u8>, tokens: Seq<Seq<u8>>) -> bool {
    forall|i: int| 0 <= i < tokens.len() ==> contains_folded(hay, #[trigger] tokens[i])
}

/// Whether every one of `tokens` stands in `haystack`, letter case aside.
pub fn ascii_fuzzy_match(haystack: &[u8], tokens: &Vec<Vec<u8>>) -> (b: bool)
    ensures
        b == contains_all(haystack@, byte_strings(tokens@)),
{
    let ghost ts = byte_strings(tokens@);
    let mut i: usize = 0;
    while i < tokens.len()
        invariant
            ts == byte_strings(tokens@),
            i <= tokens@.len(),
            forall|k: int| 0 <= k < i ==> contains_folded(haystack@, #[trigger] ts[k]),
        decreases tokens@.len() - i,
    {
        assert(ts[i as int] == tokens@[i as int]@);
        if !ascii_contains(haystack, tokens[i].as_slice()) {
            return false;
        }
        i = i + 1;
    }
    true
}

/// What a search looks for.
pub enum SearchMode {
    /// A byte string, letter case aside.
    TextInsensitive(Vec<u8>),
    /// A byte string as it stands.
    TextSensitive(Vec<u8>),
    /// Several byte strings, every one of them somewhere, letter case aside.
    FuzzyText(Vec<Vec<u8>>),
    /// A regular expression.
    Regex(LinePattern),
}

/// What a search looks for, in mathematical terms.
pub enum ModeView {
    TextInsensitive(Seq<u8>),
    TextSensitive(Seq<u8>),
    FuzzyText(Seq<Seq<u8>>),
    Regex(Seq<char>),
}

impl View for SearchMode {
    type V = ModeView;

    open spec fn view(&self) -> ModeView {
        match self {
            SearchMode::TextInsensitive(needle) => ModeView::TextInsensitive(needle@),
            SearchMode::TextSensitive(needle) => ModeView::TextSensitive(needle@),
            SearchMode::FuzzyText(tokens) => ModeView::FuzzyText(byte_strings(tokens@)),
            SearchMode::Regex(pattern) => ModeView::Regex(pattern@),
        }
    }
}

/// `text` holds what the search looks for.
pub open spec fn found_in(mode: ModeView, text: Seq<u8>) -> bool {
    match mode {
        ModeView::TextInsensitive(needle) => contains_folded(text, needle),
        ModeView::TextSensitive(needle) => contains_exact(text, needle),
        ModeView::FuzzyText(tokens) => contains_all(text, tokens),
        ModeView::Regex(pattern) => regex_finds(pattern, text),
    }
}

/// The pattern between two slashes, where `query` is of that form.
pub open spec fn slashed_pattern(query: Seq<char>) -> Option<Seq<char>> {
    if query.len() > 2 && query.first() == '/' && query.last() == '/' {
        Some(query.subrange(1, query.len() - 1))
    } else {
        None
    }
}

/// The search for the regular expression `pattern`, or the error that it gives.
pub open spec fn regex_mode(pattern: Seq<char>) -> Result<ModeView, ErrorView> {
    match regex_error(pattern) {
        None => Ok(ModeView::Regex(pattern)),
        Some(e) => Err(ErrorView::Internal("正则表达式错误: "@ + e)),
    }
}

/// The words of `query` in small letters, in bytes.
pub open spec fn fuzzy_tokens(query: Seq<char>) -> Seq<Seq<u8>> {
    Seq::new(words(query).len(), |i: int| encode_utf8(lowercase(words(query)[i])))
}

/// The words of `query` with every ASCII capital made small, in bytes.
pub open spec fn ascii_tokens(query: Seq<char>) -> Seq<Seq<u8>> {
    Seq::new(words(query).len(), |i: int| encode_utf8(ascii_lowered(words(query)[i])))
}

/// What `query` asks to look for. A query between slashes is a regular expression whatever the
/// options say; else the options decide, `use_regex` before `case_sensitive` before `fuzzy`.
pub open spec fn search_mode(
    query: Seq<char>,
    case_sensitive: bool,
    use_regex: bool,
    fuzzy: bool,
) -> Result<ModeView, ErrorView> {
    if slashed_pattern(query) is Some {
        regex_mode(slashed_pattern(query).unwrap())
    } else if use_regex {
        regex_mode(
            if case_sensitive {
                query
            } else {
                "(?i)"@ + query
            },
        )
    } else if case_sensitive {
        Ok(ModeView::TextSensitive(encode_utf8(query)))
    } else if fuzzy && words(query).len() > 1 {
        Ok(ModeView::FuzzyText(fuzzy_tokens(query)))
    } else {
        Ok(ModeView::TextInsensitive(encode_utf8(lowercase(query))))
    }
}

/// A result of the engine, its error taken by its view.
pub open spec fn mode_outcome(r: Result<SearchMode, TraceError>) -> Result<ModeView, ErrorView> {
    match r {
        Ok(m) => Ok(m@),
        Err(e) => Err(e@),
    }
}

/// The search for a regular expression, from what compiling it gave.
pub fn regex_search_mode(compiled: Result<LinePattern, String>) -> (r: Result<
    SearchMode,
    TraceError,
>)
    ensures
        match compiled {
            Ok(p) => r == Ok::<SearchMode, TraceError>(SearchMode::Regex(p)),
            Err(e) => r matches Err(t) && t@ == ErrorView::Internal("正则表达式错误: "@ + e@),
        },
{
    match compiled {
        Ok(p) => Ok(SearchMode::Regex(p)),
        Err(e) => {
            let mut m = "正则表达式错误: ".to_owned();
            m.append(e.as_str());
            Err(TraceError::Internal(m))
        },
    }
}

fn lowered_bytes(s: &str) -> (r: Vec<u8>)
    ensures
        r@ == encode_utf8(lowercase(s@)),
        is_ascii_chars(s@) ==> r@ == encode_utf8(ascii_lowered(s@)),
{
    s.to_lowercase().as_str().as_bytes_vec()
}

/// Reads what `query` asks to look for.
pub fn parse_search_mode(query: &str, case_sensitive: bool, use_regex: bool, fuzzy: bool) -> (r:
    Result<SearchMode, TraceError>)
    ensures
        mode_outcome(r) == search_mode(query@, case_sensitive, use_regex, fuzzy),
        is_ascii_chars(query@) && slashed_pattern(query@) is None && !use_regex && !case_sensitive
            ==> mode_outcome(r) == Ok::<ModeView, ErrorView>(
            if fuzzy && words(query@).len() > 1 {
                ModeView::FuzzyText(ascii_tokens(query@))
            } else {
                ModeView::TextInsensitive(encode_utf8(ascii_lowered(query@)))
            },
        ),
{
    let cs = chars_of(query);
    let n: usize = cs.len();
    if n > 2 && cs[0] == '/' && cs[n - 1] == '/' {
        return regex_search_mode(LinePattern::compile(query.substring_char(1, n - 1)));
    }
    if use_regex {
        if case_sensitive {
            regex_search_mode(LinePattern::compile(query))
        } else {
            let mut pattern = "(?i)".to_owned();
            pattern.append(query);
            regex_search_mode(LinePattern::compile(pattern.as_str()))
        }
    } else if case_sensitive {
        Ok(SearchMode::TextSensitive(query.as_bytes_vec()))
    } else if fuzzy {
        let spans = word_spans(&cs);
        if spans.len() > 1 {
            let mut tokens: Vec<Vec<u8>> = Vec::new();
            let mut i: usize = 0;
            while i < spans.len()
                invariant
                    cs@ == query@,
                    pieces(cs@, spans@) == words(cs@),
                    forall|k: int|
                        0 <= k < spans@.len() ==> within(#[trigger] spans@[k], cs@.len() as int),
                    i <= spans@.len(),
                    tokens@.len() == i,
                    forall|k: int|
                        0 <= k < i ==> #[trigger] tokens@[k]@ == encode_utf8(
                            lowercase(words(query@)[k]),
                        ),
                    is_ascii_chars(query@) ==> forall|k: int|
                        0 <= k < i ==> #[trigger] tokens@[k]@ == encode_utf8(
                            ascii_lowered(words(query@)[k]),
                        ),
                decreases spans@.len() - i,
            {
                let (a, b): (usize, usize) = spans[i];
                assert(within(spans@[i as int], cs@.len() as int));
                assert(pieces(cs@, spans@)[i as int] == query@.subrange(a as int, b as int));
                tokens.push(lowered_bytes(query.substring_char(a, b)));
                i = i + 1;
            }
            assert(pieces(cs@, spans@).len() == spans@.len());
            assert(byte_strings(tokens@) =~= fuzzy_tokens(query@));
            assert(is_ascii_chars(query@) ==> byte_strings(tokens@) =~= ascii_tokens(query@));
            Ok(SearchMode::FuzzyText(tokens))
        } else {
            assert(pieces(cs@, spans@).len() == spans@.len());
            Ok(SearchMode::TextInsensitive(lowered_bytes(query)))
        }
    } else {
        Ok(SearchMode::TextInsensitive(lowered_bytes(query)))
    }
}

/// Whether `text` holds what the search looks for.
pub fn matches_mode_bytes(mode: &SearchMode, text: &[u8]) -> (b: bool)
    ensures
        b == found_in(mode@, text@),
{
    match mode {
        SearchMode::TextInsensitive(needle) => ascii_contains(text, needle.as_slice()),
        SearchMode::TextSensitive(needle) => ascii_contains_sensitive(text, needle.as_slice()),
        SearchMode::FuzzyText(tokens) => ascii_fuzzy_match(text, tokens),
        SearchMode::Regex(pattern) => pattern.is_match(text),
    }
}

/// Whether `text` holds what the search looks for.
pub fn matches_mode_str(mode: &SearchMode, text: &str) -> (b: bool)
    ensures
        b == found_in(mode@, encode_utf8(text@)),
{
    matches_mode_bytes(mode, text.as_bytes())
}

/// Whether a line, or the text of the call made there, holds what the search looks for.
pub fn matches_line(mode: &SearchMode, line: &[u8], call_text: Option<&[u8]>) -> (b: bool)
    ensures
        b == (found_in(mode@, line@) || (call_text matches Some(t) && found_in(mode@, t@))),
{
    if matches_mode_bytes(mode, line) {
        return true;
    }
    match call_text {
        Some(text) => matches_mode_bytes(mode, text),
        None => false,
    }
}

/// Every text holds the empty needle, and whatever holds a needle as it stands holds it with
/// letter case set aside.
pub proof fn law_exact_is_folded(hay: Seq<u8>, needle: Seq<u8>)
    ensures
        needle.len() == 0 ==> contains_exact(hay, needle),
        contains_exact(hay, needle) ==> contains_folded(hay, needle),
{
    if needle.len() == 0 {
        assert(hay.subrange(0, 0) =~= needle);
        assert(exact_at(hay, needle, 0));
    }
    if contains_exact(hay, needle) {
        let i = choose|i: int| exact_at(hay, needle, i);
        assert forall|j: int| 0 <= j < needle.len() implies ascii_lower(#[trigger] hay[i + j])
            == ascii_lower(needle[j]) by {
            assert(hay.subrange(i, i + needle.len())[j] == hay[i + j]);
        }
        assert(folded_at(hay, needle, i));
    }
}

/// The bytes `s` with every ASCII capital made small.
pub open spec fn lowered(s: Seq<u8>) -> Seq<u8> {
    Seq::new(s.len(), |i: int| ascii_lower(s[i]))
}

/// A search that sets letter case aside gives the same answer whatever the case of the letters
/// in the text and in the needle.
pub proof fn law_folded_ignores_case(hay: Seq<u8>, needle: Seq<u8>)
    ensures
        contains_folded(lowered(hay), needle) == contains_folded(hay, needle),
        contains_folded(hay, lowered(needle)) == contains_folded(hay, needle),
{
    assert forall|i: int| folded_at(lowered(hay), needle, i) == folded_at(hay, needle, i) by {
        if folded_at(hay, needle, i) {
            assert forall|j: int| 0 <= j < needle.len() implies ascii_lower(
                #[trigger] lowered(hay)[i + j],
            ) == ascii_lower(needle[j]) by {
                assert(ascii_lower(hay[i + j]) == ascii_lower(needle[j]));
            }
        }
        if folded_at(lowered(hay), needle, i) {
            assert forall|j: int| 0 <= j < needle.len() implies ascii_lower(#[trigger] hay[i + j])
                == ascii_lower(needle[j]) by {
                assert(ascii_lower(lowered(hay)[i + j]) == ascii_lower(needle[j]));
            }
        }
    }
    assert forall|i: int| folded_at(hay, lowered(needle), i) == folded_at(hay, needle, i) by {
        if folded_at(hay, lowered(needle), i) {
            assert forall|j: int| 0 <= j < needle.len() implies ascii_lower(#[trigger] hay[i + j])
                == ascii_lower(needle[j]) by {
                assert(ascii_lower(hay[i + j]) == ascii_lower(lowered(needle)[j]));
            }
        }
    }
    if contains_folded(hay, needle) {
        let i = choose|i: int| folded_at(hay, needle, i);
        assert(folded_at(lowered(hay), needle, i));
        assert(folded_at(hay, lowered(needle), i));
    }
    if contains_folded(lowered(hay), needle) {
        let i = choose|i: int| folded_at(lowered(hay), needle, i);
        assert(folded_at(hay, needle, i));
    }
    if contains_folded(hay, lowered(needle)) {
        let i = choose|i: int| folded_at(hay, lowered(needle), i);
        assert(folded_at(hay, needle, i));
    }
}

/// Several words are found exactly where each of them is found, in whatever order they are given.
pub proof fn law_fuzzy_is_conjunction(hay: Seq<u8>, first: Seq<Seq<u8>>, second: Seq<Seq<u8>>)
    ensures
        contains_all(hay, first + second) == (contains_all(hay, first) && contains_all(
            hay,
            second,
        )),
        contains_all(hay, first + second) == contains_all(hay, second + first),
{
    assert forall|a: Seq<Seq<u8>>, b: Seq<Seq<u8>>| #[trigger]
        contains_all(hay, a + b) == (contains_all(hay, a) && contains_all(hay, b)) by {
        if contains_all(hay, a + b) {
            assert forall|i: int| 0 <= i < a.len() implies contains_folded(
                hay,
                #[trigger] a[i],
            ) by {
                assert(a[i] == (a + b)[i]);
            }
            assert forall|i: int| 0 <= i < b.len() implies contains_folded(
                hay,
                #[trigger] b[i],
            ) by {
                assert(b[i] == (a + b)[a.len() + i]);
            }
        }
    }
}

/// A text that holds what is looked for still holds it with more text round it, unless a regular
/// expression is looked for.
pub proof fn law_found_in_longer_text(mode: ModeView, before: Seq<u8>, text: Seq<u8>, after: Seq<u8>)
    requires
        !(mode is Regex),
        found_in(mode, text),
    ensures
        found_in(mode, before + text + after),
{
    let long = before + text + after;
    let n = before.len() as int;
    match mode {
        ModeView::TextInsensitive(needle) => {
            lemma_folded_in_longer_text(before, text, after, needle);
        },
        ModeView::TextSensitive(needle) => {
            let i = choose|i: int| exact_at(text, needle, i);
            assert(long.subrange(n + i, n + i + needle.len()) =~= text.subrange(
                i,
                i + needle.len(),
            ));
            assert(exact_at(long, needle, n + i));
        },
        ModeView::FuzzyText(tokens) => {
            assert forall|k: int| 0 <= k < tokens.len() implies contains_folded(
                long,
                #[trigger] tokens[k],
            ) by {
                lemma_folded_in_longer_text(before, text, after, tokens[k]);
            }
        },
        ModeView::Regex(_) => {},
    }
}

proof fn lemma_folded_in_longer_text(
    before: Seq<u8>,
    text: Seq<u8>,
    after: Seq<u8>,
    needle: Seq<u8>,
)
    requires
        contains_folded(text, needle),
    ensures
        contains_folded(before + text + after, needle),
{
    let long = before + text + after;
    let n = before.len() as int;
    let i = choose|i: int| folded_at(text, needle, i);
    assert forall|j: int| 0 <= j < needle.len() implies ascii_lower(
        #[trigger] long[n + i + j],
    ) == ascii_lower(needle[j]) by {
        assert(long[n + i + j] == text[i + j]);
    }
    assert(folded_at(long, needle, n + i));
}

/// A query between slashes means the same whatever the options say.
pub proof fn law_slashes_override_options(
    query: Seq<char>,
    case_sensitive: bool,
    use_regex: bool,
    fuzzy: bool,
)
    requires
        slashed_pattern(query) is Some,
    ensures
        search_mode(query, case_sensitive, use_regex, fuzzy) == search_mode(
            query,
            true,
            true,
            false,
        ),
{
}

/// Two byte strings are the same but for the case of ASCII letters.
pub open spec fn same_but_for_case(a: Seq<u8>, b: Seq<u8>) -> bool {
    &&& a.len() == b.len()
    &&& forall|j: int|
        0 <= j < a.len() ==> {
            ||| #[trigger] a[j] == b[j]
            ||| 65 <= a[j] <= 90 && b[j] == a[j] + 32
            ||| 65 <= b[j] <= 90 && a[j] == b[j] + 32
        }
}

/// A part of `text` is `needle` but for the case of ASCII letters.
pub open spec fn holds_but_for_case(text: Seq<u8>, needle: Seq<u8>) -> bool {
    exists|a: Seq<u8>, m: Seq<u8>, b: Seq<u8>|
        text == #[trigger] (a + m + b) && same_but_for_case(m, needle)
}

/// Setting letter case aside, two bytes count as equal exactly if they are the same byte, or one is
/// an ASCII capital and the other its small letter.
pub proof fn law_only_letter_case_is_set_aside(a: u8, b: u8)
    ensures
        ascii_lower(a) == ascii_lower(b) <==> a == b || (65 <= a <= 90 && b == a + 32) || (65 <= b
            <= 90 && a == b + 32),
{
}

/// A search that sets letter case aside finds a needle exactly where a part of the text is the
/// needle but for the case of ASCII letters. Where neither has a capital, it finds exactly what a
/// search that minds letter case finds.
pub proof fn law_insensitive_search_finds_the_needle(hay: Seq<u8>, needle: Seq<u8>)
    ensures
        contains_folded(hay, needle) <==> holds_but_for_case(hay, needle),
        (forall|i: int| 0 <= i < hay.len() ==> !(65 <= #[trigger] hay[i] <= 90)) && (forall|i: int|
            0 <= i < needle.len() ==> !(65 <= #[trigger] needle[i] <= 90)) ==> contains_folded(
            hay,
            needle,
        ) == contains_exact(hay, needle),
{
    if contains_folded(hay, needle) {
        let i = choose|i: int| folded_at(hay, needle, i);
        let n = needle.len();
        let (a, m, b) = (hay.take(i), hay.subrange(i, i + n), hay.skip(i + n));
        assert(hay =~= a + m + b);
        assert forall|j: int| 0 <= j < m.len() implies {
            ||| #[trigger] m[j] == needle[j]
            ||| 65 <= m[j] <= 90 && needle[j] == m[j] + 32
            ||| 65 <= needle[j] <= 90 && m[j] == needle[j] + 32
        } by {
            assert(m[j] == hay[i + j]);
            law_only_letter_case_is_set_aside(m[j], needle[j]);
        }
        assert(same_but_for_case(m, needle));
        if (forall|i: int| 0 <= i < hay.len() ==> !(65 <= #[trigger] hay[i] <= 90)) && (forall|
            i: int,
        |
            0 <= i < needle.len() ==> !(65 <= #[trigger] needle[i] <= 90)) {
            assert forall|j: int| 0 <= j < m.len() implies m[j] == needle[j] by {
                assert(m[j] == hay[i + j]);
            }
            assert(m =~= needle);
            assert(exact_at(hay, needle, i));
        }
    }
    if holds_but_for_case(hay, needle) {
        let (a, m, b) = choose|a: Seq<u8>, m: Seq<u8>, b: Seq<u8>|
            hay == #[trigger] (a + m + b) && same_but_for_case(m, needle);
        let i = a.len() as int;
        assert forall|j: int| 0 <= j < needle.len() implies ascii_lower(#[trigger] hay[i + j])
            == ascii_lower(needle[j]) by {
            assert(hay[i + j] == m[j]);
            law_only_letter_case_is_set_aside(m[j], needle[j]);
        }
        assert(folded_at(hay, needle, i));
    }
    law_exact_is_folded(hay, needle);
}

/// A search that minds letter case finds a needle exactly if the text is made of something, the
/// needle, and something more.
pub proof fn law_sensitive_search_finds_the_needle(hay: Seq<u8>, needle: Seq<u8>)
    ensures
        contains_exact(hay, needle) <==> exists|a: Seq<u8>, b: Seq<u8>| hay == #[trigger] (a + needle
            + b),
{
    if contains_exact(hay, needle) {
        let i = choose|i: int| exact_at(hay, needle, i);
        let (a, b) = (hay.take(i), hay.skip(i + needle.len()));
        assert(hay =~= a + needle + b) by {
            assert forall|j: int| 0 <= j < needle.len() implies hay[i + j] == needle[j] by {
                assert(hay.subrange(i, i + needle.len())[j] == hay[i + j]);
            }
        }
    }
    if exists|a: Seq<u8>, b: Seq<u8>| hay == #[trigger] (a + needle + b) {
        let (a, b) = choose|a: Seq<u8>, b: Seq<u8>| hay == #[trigger] (a + needle + b);
        let i = a.len() as int;
        assert(hay.subrange(i, i + needle.len()) =~= needle);
        assert(exact_at(hay, needle, i));
    }
}

/// The pattern that a query is a regular expression for, if it is one: what stands between two
/// slashes; else, where a regular expression was asked for, the query, with `(?i)` before it unless
/// letter case is minded.
pub open spec fn asked_pattern(query: Seq<char>, case_sensitive: bool, use_regex: bool) -> Option<
    Seq<char>,
> {
    if exists|p: Seq<char>| p.len() > 0 && query == #[trigger] (seq!['/'] + p + seq!['/']) {
        Some(choose|p: Seq<char>| p.len() > 0 && query == #[trigger] (seq!['/'] + p + seq!['/']))
    } else if use_regex && case_sensitive {
        Some(query)
    } else if use_regex {
        Some(seq!['(', '?', 'i', ')'] + query)
    } else {
        None
    }
}

proof fn lemma_slashed(query: Seq<char>)
    ensures
        slashed_pattern(query) is Some <==> exists|p: Seq<char>|
            p.len() > 0 && query == #[trigger] (seq!['/'] + p + seq!['/']),
        forall|p: Seq<char>|
            p.len() > 0 && query == #[trigger] (seq!['/'] + p + seq!['/']) ==> slashed_pattern(query)
                == Some(p),
{
    if slashed_pattern(query) is Some {
        let p = slashed_pattern(query).unwrap();
        assert(query =~= seq!['/'] + p + seq!['/']);
    }
    assert forall|p: Seq<char>|
        p.len() > 0 && query == #[trigger] (seq!['/'] + p + seq!['/']) implies slashed_pattern(query)
        == Some(p) by {
        assert(query.subrange(1, query.len() - 1) =~= p);
    }
}

/// What a search for a query finds, and when it cannot be made. A query for a regular expression
/// finds what the expression matches, and fails exactly if the expression does not compile. Any
/// other query finds the texts that hold it: as it stands where letter case is minded; every one of
/// its words, in lower case, where fuzzy search was asked for and there are several; else the whole
/// of it, in lower case. For the last two the case of ASCII letters in the text does not count.
pub proof fn law_what_a_query_finds(
    query: Seq<char>,
    case_sensitive: bool,
    use_regex: bool,
    fuzzy: bool,
    text: Seq<u8>,
)
    ensures
        match (
            asked_pattern(query, case_sensitive, use_regex),
            search_mode(query, case_sensitive, use_regex, fuzzy),
        ) {
            (Some(p), Ok(mode)) => regex_error(p) is None && found_in(mode, text) == regex_finds(
                p,
                text,
            ),
            (Some(p), Err(v)) => regex_error(p) matches Some(e) && v == ErrorView::Internal(
                "正则表达式错误: "@ + e,
            ),
            (None, Ok(mode)) => found_in(mode, text) == if case_sensitive {
                exists|a: Seq<u8>, b: Seq<u8>| text == #[trigger] (a + encode_utf8(query) + b)
            } else if fuzzy && words(query).len() > 1 {
                forall|i: int|
                    0 <= i < words(query).len() ==> holds_but_for_case(
                        text,
                        encode_utf8(lowercase(#[trigger] words(query)[i])),
                    )
            } else {
                holds_but_for_case(text, encode_utf8(lowercase(query)))
            },
            (None, Err(_)) => false,
        },
{
    lemma_slashed(query);
    reveal_strlit("(?i)");
    assert("(?i)"@ =~= seq!['(', '?', 'i', ')']);
    law_sensitive_search_finds_the_needle(text, encode_utf8(query));
    law_insensitive_search_finds_the_needle(text, encode_utf8(lowercase(query)));
    let ws = words(query);
    let tokens = fuzzy_tokens(query);
    assert forall|i: int| 0 <= i < ws.len() implies contains_folded(text, #[trigger] tokens[i])
        == holds_but_for_case(text, encode_utf8(lowercase(ws[i]))) by {
        law_insensitive_search_finds_the_needle(text, encode_utf8(lowercase(ws[i])));
    }
    if contains_all(text, tokens) {
        assert forall|i: int| 0 <= i < ws.len() implies holds_but_for_case(
            text,
            encode_utf8(lowercase(#[trigger] ws[i])),
        ) by {
            assert(contains_folded(text, tokens[i]));
        }
    }
    if forall|i: int|
        0 <= i < ws.len() ==> holds_but_for_case(text, encode_utf8(lowercase(#[trigger] ws[i]))) {
        assert forall|i: int| 0 <= i < tokens.len() implies contains_folded(
            text,
            #[trigger] tokens[i],
        ) by {
            assert(holds_but_for_case(text, encode_utf8(lowercase(ws[i]))));
        }
    }
}

/// Byte strings, and what reading a query gave, are taken as they are.
pub proof fn law_modes_are_taken_as_they_are(v: Seq<Vec<u8>>, r: Result<SearchMode, TraceError>)
    ensures
        byte_strings(v).len() == v.len(),
        forall|i: int| 0 <= i < v.len() ==> #[trigger] byte_strings(v)[i] == v[i]@,
        match (r, mode_outcome(r)) {
            (Ok(SearchMode::TextInsensitive(n)), Ok(m)) => m == ModeView::TextInsensitive(n@),
            (Ok(SearchMode::TextSensitive(n)), Ok(m)) => m == ModeView::TextSensitive(n@),
            (Ok(SearchMode::FuzzyText(ts)), Ok(m)) => m == ModeView::FuzzyText(byte_strings(ts@)),
            (Ok(SearchMode::Regex(p)), Ok(m)) => m == ModeView::Regex(p@),
            (Err(e), Err(v)) => e@ == v,
            _ => false,
        },
{
}

} // verus!
