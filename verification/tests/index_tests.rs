use std::collections::{HashMap, HashSet};

use trace_tools::index::{plan_chunks, LineIndex};
use trace_tools::matching::{parse_search_mode, SearchMode};
use trace_tools::scan::{find_line_end, search_chunk_seqs, search_in_chunks};

fn index(data: &[u8], stride: u32) -> LineIndex {
    match LineIndex::build(data, stride) {
        Some(index) => index,
        None => panic!("too many lines"),
    }
}

fn text(query: &str) -> SearchMode {
    match parse_search_mode(query, false, false, false) {
        Ok(m) => m,
        Err(e) => panic!("{}", e.message()),
    }
}

#[test]
fn lines_end_at_line_feeds() {
    assert_eq!(find_line_end(b"ab\ncd", 0), 2);
    assert_eq!(find_line_end(b"ab\ncd", 2), 2);
    assert_eq!(find_line_end(b"ab\ncd", 3), 5);
    assert_eq!(find_line_end(b"", 0), 0);
}

#[test]
fn every_line_is_found_at_any_stride() {
    let data = b"first\n\nthird\nlast";
    for stride in 1..6u32 {
        let ix = index(data, stride);
        assert_eq!(ix.total_lines(), 4);
        assert_eq!(ix.line_byte_offset(data, 0), Some(0));
        assert_eq!(ix.line_byte_offset(data, 1), Some(6));
        assert_eq!(ix.line_byte_offset(data, 2), Some(7));
        assert_eq!(ix.line_byte_offset(data, 3), Some(13));
        assert_eq!(ix.line_byte_offset(data, 4), None);
    }
}

#[test]
fn a_line_feed_at_the_end_starts_no_line() {
    assert_eq!(index(b"a\n", 2).total_lines(), 1);
    assert_eq!(index(b"\n", 2).total_lines(), 1);
    assert_eq!(index(b"", 2).total_lines(), 0);
    assert_eq!(index(b"a\n\n", 2).total_lines(), 2);
}

#[test]
fn chunks_follow_each_other() {
    let data: Vec<u8> = "x\n".repeat(10007).into_bytes();
    let ix = index(&data, 100);
    for cpus in [2usize, 3, 16, 64] {
        let chunks = plan_chunks(&ix, &data, cpus);
        assert_eq!(chunks.len(), cpus.min(16));
        assert_eq!(chunks[0], (0, (10007u32).div_ceil(cpus.min(16) as u32), 0));
        assert_eq!(chunks[chunks.len() - 1].1, 10007);
        for pair in chunks.windows(2) {
            assert_eq!(pair[0].1, pair[1].0);
            assert_eq!(pair[1].2, 2 * pair[1].0 as usize);
        }
    }
}

#[test]
fn a_chunk_is_searched_from_its_offset() {
    let data = b"bl a\nmov\nbl b\nbl c";
    let m = text("BL");
    let none = HashSet::new();
    let no_texts = HashMap::new();
    assert_eq!(search_chunk_seqs(data, 0, 4, 0, &m, &none, &no_texts, 10), (vec![0, 2, 3], 3));
    assert_eq!(search_chunk_seqs(data, 0, 4, 0, &m, &none, &no_texts, 2), (vec![0, 2], 3));
    assert_eq!(search_chunk_seqs(data, 2, 3, 9, &m, &none, &no_texts, 10), (vec![2], 1));
    assert_eq!(search_chunk_seqs(data, 2, 2, 9, &m, &none, &no_texts, 10), (vec![], 0));
    assert_eq!(search_chunk_seqs(data, 0, 9, 99, &m, &none, &no_texts, 10), (vec![], 0));
}

#[test]
fn consumed_lines_are_passed_over_and_call_texts_looked_at() {
    let data = b"bl a\nmov\nbl b";
    let consumed: HashSet<u32> = [0u32].into_iter().collect();
    let texts: HashMap<u32, String> = [(1u32, "BL inside".to_string())].into_iter().collect();
    assert_eq!(
        search_chunk_seqs(data, 0, 3, 0, &text("bl"), &consumed, &texts, 10),
        (vec![1, 2], 2)
    );
}

#[test]
fn two_parts_find_what_the_whole_finds() {
    let lines: Vec<String> = (0..10500u32).map(|i| format!("line {} x{}", i, i % 7)).collect();
    let data = lines.join("\n").into_bytes();
    let ix = index(&data, 64);
    let m = text("x3");
    let none = HashSet::new();
    let no_texts = HashMap::new();
    let whole = search_chunk_seqs(&data, 0, 10500, 0, &m, &none, &no_texts, usize::MAX);
    assert_eq!(whole.1, 1500);
    assert!(whole.0.windows(2).all(|w| w[0] < w[1]));
    for cpus in [2usize, 5, 16] {
        let chunks = plan_chunks(&ix, &data, cpus);
        let parts = search_in_chunks(&data, 10500, &chunks, &m, &none, &no_texts, usize::MAX);
        assert_eq!(parts, whole);
        let some = search_in_chunks(&data, 10500, &chunks, &m, &none, &no_texts, 700);
        assert_eq!(some, (whole.0[..700].to_vec(), 1500));
    }
}
