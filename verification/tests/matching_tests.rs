use trace_tools::error::TraceError;
use trace_tools::matching::{
    ascii_contains, ascii_contains_sensitive, ascii_fuzzy_match, matches_line, matches_mode_bytes,
    matches_mode_str, parse_search_mode, regex_search_mode, SearchMode,
};

fn mode(query: &str, case_sensitive: bool, use_regex: bool, fuzzy: bool) -> SearchMode {
    match parse_search_mode(query, case_sensitive, use_regex, fuzzy) {
        Ok(m) => m,
        Err(e) => panic!("{}", e.message()),
    }
}

#[test]
fn plain_text_ignores_case() {
    let m = mode("MOV X0", false, false, false);
    assert!(matches!(&m, SearchMode::TextInsensitive(n) if n == b"mov x0"));
    assert!(matches_mode_bytes(&m, b"0x10: Mov x0, x1"));
    assert!(!matches_mode_bytes(&m, b"mov  x0"));
}

#[test]
fn case_sensitive_text() {
    let m = mode("MOV", true, false, true);
    assert!(matches!(&m, SearchMode::TextSensitive(n) if n == b"MOV"));
    assert!(matches_mode_str(&m, "a MOV b"));
    assert!(!matches_mode_str(&m, "a mov b"));
}

#[test]
fn fuzzy_text_needs_every_word() {
    let m = mode(" Ldr  X0 ", false, false, true);
    assert!(matches!(&m, SearchMode::FuzzyText(t) if t.len() == 2 && t[0] == b"ldr" && t[1] == b"x0"));
    assert!(matches_mode_bytes(&m, b"x0 = LDR"));
    assert!(!matches_mode_bytes(&m, b"ldr x1"));
}

#[test]
fn one_fuzzy_word_is_plain_text() {
    let m = mode(" ldr ", false, false, true);
    assert!(matches!(&m, SearchMode::TextInsensitive(n) if n == b" ldr "));
    assert!(!matches_mode_bytes(&m, b"ldr"));
}

#[test]
fn lower_case_goes_beyond_ascii() {
    let m = mode("ÄÖ", false, false, false);
    assert!(matches!(&m, SearchMode::TextInsensitive(n) if n.as_slice() == "äö".as_bytes()));
    assert!(matches_mode_str(&m, "xäöx"));
    assert!(!matches_mode_str(&m, "xÄÖx"));
}

#[test]
fn slashes_make_a_regex_whatever_the_options() {
    for cs in [false, true] {
        for re in [false, true] {
            for fz in [false, true] {
                let m = mode("/bl.*0x[0-9a-f]+/", cs, re, fz);
                assert!(matches!(&m, SearchMode::Regex(_)));
                assert!(matches_mode_bytes(&m, b"bl #0x1f"));
                assert!(!matches_mode_bytes(&m, b"BL #0x1f"));
            }
        }
    }
}

#[test]
fn too_short_for_slashes() {
    let m = mode("//", false, false, false);
    assert!(matches!(&m, SearchMode::TextInsensitive(n) if n == b"//"));
    assert!(matches!(mode("/", true, false, false), SearchMode::TextSensitive(n) if n == b"/"));
}

#[test]
fn regex_option() {
    let m = mode("MOV x[01]", false, true, false);
    assert!(matches_mode_bytes(&m, b"mov X1"));
    assert!(!matches_mode_bytes(&m, b"mov x2"));
    let m = mode("MOV x[01]", true, true, false);
    assert!(matches_mode_bytes(&m, b"MOV x1"));
    assert!(!matches_mode_bytes(&m, b"mov x1"));
}

#[test]
fn regex_on_bytes_that_are_no_text() {
    let m = mode("a.c", true, true, false);
    assert!(matches_mode_bytes(&m, b"\xff abc"));
}

#[test]
fn wrong_regex_is_reported() {
    for (query, re) in [("/a(b/", false), ("a(b", true)] {
        match parse_search_mode(query, false, re, false) {
            Err(TraceError::Internal(t)) => {
                assert!(t.starts_with("正则表达式错误: regex parse error:"), "{}", t)
            }
            _ => panic!("no error"),
        }
    }
}

#[test]
fn failed_compilation_is_an_internal_error() {
    match regex_search_mode(Err("boom".to_string())) {
        Err(TraceError::Internal(t)) => assert_eq!(t, "正则表达式错误: boom"),
        _ => panic!("no error"),
    }
}

#[test]
fn containment_of_bytes() {
    assert!(ascii_contains(b"abc", b""));
    assert!(ascii_contains(b"", b""));
    assert!(!ascii_contains(b"", b"a"));
    assert!(ascii_contains(b"xABc", b"abC"));
    assert!(ascii_contains_sensitive(b"aaab", b"aab"));
    assert!(!ascii_contains_sensitive(b"aAab", b"aab"));
    assert!(ascii_contains_sensitive(b"abc", b""));
    assert!(!ascii_contains_sensitive(b"ab", b"abc"));
}

#[test]
fn exact_matches_are_also_found_without_case() {
    for (hay, needle) in [("abc", "b"), ("ABC", "BC"), ("", ""), ("x0=1", "x0")] {
        assert!(ascii_contains_sensitive(hay.as_bytes(), needle.as_bytes()));
        assert!(ascii_contains(hay.as_bytes(), needle.as_bytes()));
        assert!(ascii_contains(hay.to_ascii_uppercase().as_bytes(), needle.as_bytes()));
        assert!(ascii_contains(hay.as_bytes(), needle.to_ascii_uppercase().as_bytes()));
    }
}

#[test]
fn fuzzy_match_is_a_conjunction() {
    assert!(ascii_fuzzy_match(b"abc", &vec![]));
    assert!(ascii_fuzzy_match(b"abc", &vec![b"C".to_vec(), b"a".to_vec()]));
    assert!(!ascii_fuzzy_match(b"abc", &vec![b"a".to_vec(), b"d".to_vec()]));
}

#[test]
fn a_longer_text_still_holds_the_needle() {
    let m = mode("bl", false, false, false);
    assert!(matches_mode_bytes(&m, b"bl"));
    assert!(matches_mode_bytes(&m, b"xx bl yy"));
}

#[test]
fn call_text_is_searched_too() {
    let m = mode("memcpy", false, false, false);
    assert!(matches_line(&m, b"call memcpy", None));
    assert!(matches_line(&m, b"bl x8", Some(b"MemCpy(dst)")));
    assert!(!matches_line(&m, b"bl x8", Some(b"strlen")));
    assert!(!matches_line(&m, b"bl x8", None));
}
