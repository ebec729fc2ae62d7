use trace_tools::api_types::TraceLine;
use trace_tools::matching::{parse_search_mode, SearchMode};
use trace_tools::render::{display_summary, rendered_search_text, search_match, CallAnnotation};

fn line() -> TraceLine {
    TraceLine {
        seq: 7,
        address: "0x1000".to_string(),
        so_offset: "0x10".to_string(),
        so_name: Some("libx.so".to_string()),
        disasm: "bl #0x20".to_string(),
        changes: "x0=1".to_string(),
        reg_before: "x0=0".to_string(),
        mem_rw: Some("W".to_string()),
        mem_addr: None,
        mem_size: None,
        raw: "raw".to_string(),
        call_info: None,
    }
}

fn note(summary: &str, tooltip: &str) -> CallAnnotation {
    CallAnnotation {
        func_name: "memcpy".to_string(),
        is_jni: true,
        summary: summary.to_string(),
        tooltip: tooltip.to_string(),
    }
}

fn mode(query: &str) -> SearchMode {
    match parse_search_mode(query, false, false, false) {
        Ok(m) => m,
        Err(e) => panic!("{}", e.message()),
    }
}

#[test]
fn parts_are_shown_one_to_a_line() {
    assert_eq!(
        rendered_search_text("0x1", "mov", "x0=1", Some("R"), Some("call")),
        "R\n0x1\nmov\ncall\nx0=1"
    );
}

#[test]
fn empty_parts_are_left_out() {
    assert_eq!(rendered_search_text("", "mov", "", Some(""), None), "mov");
    assert_eq!(rendered_search_text("0x1", "", "x0=1", None, Some("")), "0x1\nx0=1");
    assert_eq!(rendered_search_text("", "", "", None, None), "");
}

#[test]
fn short_summaries_are_shown_whole() {
    let s = "a".repeat(80);
    assert_eq!(display_summary(&s), s);
    assert_eq!(display_summary(""), "");
}

#[test]
fn long_summaries_are_cut_after_eighty_characters() {
    let s = "a".repeat(81);
    assert_eq!(display_summary(&s), "a".repeat(80));
    let s = format!("{}é!", "a".repeat(79));
    assert_eq!(display_summary(&s), format!("{}é", "a".repeat(79)));
    let s = "密".repeat(80);
    assert_eq!(display_summary(&s), s);
    let s = "密".repeat(90);
    assert_eq!(display_summary(&s), "密".repeat(80));
}

#[test]
fn a_match_in_a_long_word_that_is_shown_is_not_hidden() {
    let n = note(&format!("{}secret", "密".repeat(40)), "tip");
    let text = "secret".to_string();
    assert!(search_match(&mode("secret"), &line(), Some(&n), Some(&text)).hidden_content.is_none());
}

#[test]
fn a_match_without_a_call() {
    let m = search_match(&mode("zzz"), &line(), None, Some(&"zzz".to_string()));
    assert_eq!(m.seq, 7);
    assert_eq!(m.address, "0x1000");
    assert_eq!(m.so_offset, "0x10");
    assert_eq!(m.so_name.as_deref(), Some("libx.so"));
    assert_eq!(m.disasm, "bl #0x20");
    assert_eq!(m.changes, "x0=1");
    assert_eq!(m.reg_before, "x0=0");
    assert_eq!(m.mem_rw.as_deref(), Some("W"));
    assert!(m.call_info.is_none());
    assert!(m.hidden_content.is_none());
}

#[test]
fn hidden_matches_bring_their_tooltip() {
    let n = note("memcpy(..)", "memcpy(dst, secret)");
    let m = search_match(&mode("secret"), &line(), Some(&n), Some(&"dst secret".to_string()));
    assert_eq!(m.hidden_content.as_deref(), Some("memcpy(dst, secret)"));
    match m.call_info {
        Some(info) => {
            assert_eq!(info.func_name, "memcpy");
            assert!(info.is_jni);
            assert_eq!(info.summary, "memcpy(..)");
            assert_eq!(info.tooltip, "memcpy(dst, secret)");
        }
        None => panic!("no call"),
    }
}

#[test]
fn shown_matches_have_nothing_hidden() {
    let n = note("memcpy(..)", "tip");
    let text = "memcpy bl".to_string();
    assert!(search_match(&mode("memcpy"), &line(), Some(&n), Some(&text)).hidden_content.is_none());
    assert!(search_match(&mode("bl"), &line(), Some(&n), Some(&text)).hidden_content.is_none());
    assert!(search_match(&mode("zzz"), &line(), Some(&n), Some(&text)).hidden_content.is_none());
    assert!(search_match(&mode("memcpy"), &line(), Some(&n), None).hidden_content.is_none());
}

#[test]
fn an_empty_tooltip_hides_nothing() {
    let n = note("", "");
    let text = "secret".to_string();
    assert!(search_match(&mode("secret"), &line(), Some(&n), Some(&text)).hidden_content.is_none());
}

#[test]
fn what_is_cut_off_counts_as_hidden() {
    let n = note(&format!("{}secret", "a".repeat(80)), "tip");
    let text = "secret".to_string();
    let m = search_match(&mode("secret"), &line(), Some(&n), Some(&text));
    assert_eq!(m.hidden_content.as_deref(), Some("tip"));
}
