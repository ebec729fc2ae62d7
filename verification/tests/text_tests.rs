use trace_tools::text::{
    chars_of, decimal_text, is_whitespace, join_texts, numeral_text, read_number, spells,
    str_contains, trim, word_spans,
};

#[test]
fn whitespace_is_that_of_std() {
    for u in 0..=0x10ffffu32 {
        if let Some(c) = char::from_u32(u) {
            assert_eq!(is_whitespace(c), c.is_whitespace());
        }
    }
}

#[test]
fn trimming_is_that_of_std() {
    for s in ["", " ", "a", " a ", "\t\u{3000}a b\u{a0}\n", "\u{2028}\u{2029}", "é \u{85}"] {
        assert_eq!(trim(s), s.trim());
    }
}

#[test]
fn words_are_those_of_std() {
    for s in ["", "  ", "a", " mov  x0,\tx1 ", "\u{3000}é\u{a0}b\u{2009}c"] {
        let cs = chars_of(s);
        let got: Vec<String> = word_spans(&cs)
            .iter()
            .map(|&(a, b)| cs[a..b].iter().collect::<String>())
            .collect();
        let want: Vec<String> = s.split_whitespace().map(|w| w.to_string()).collect();
        assert_eq!(got, want);
    }
}

#[test]
fn containment_is_that_of_std() {
    let samples = ["", "a", "ab", "aab", "aaab", "sub_1234", "解密函数", "密函"];
    for s in samples {
        for n in samples {
            assert_eq!(str_contains(s, n), s.contains(n), "{} in {}", n, s);
        }
    }
}

#[test]
fn spelling_is_exact() {
    assert!(spells(&['s', 'p'], "sp"));
    assert!(!spells(&['s', 'p'], "s"));
    assert!(!spells(&['s', 'p'], "sq"));
    assert!(spells(&[], ""));
}

#[test]
fn numbers_are_written_and_read_back() {
    for n in [0u64, 7, 10, 255, 4096, 4294967295, u64::MAX] {
        assert_eq!(decimal_text(n), n.to_string());
        assert_eq!(numeral_text(n, 16), format!("{:x}", n));
        assert_eq!(read_number(&chars_of(&decimal_text(n)), 0, 10, u64::MAX), Some(n));
        assert_eq!(read_number(&chars_of(&numeral_text(n, 16)), 0, 16, u64::MAX), Some(n));
    }
}

#[test]
fn numbers_over_the_limit_are_refused() {
    assert_eq!(read_number(&chars_of("4294967296"), 0, 10, 4294967295), None);
    assert_eq!(read_number(&chars_of("4294967295"), 0, 10, 4294967295), Some(4294967295));
    assert_eq!(read_number(&chars_of("18446744073709551616"), 0, 10, u64::MAX), None);
    assert_eq!(read_number(&chars_of(""), 0, 10, u64::MAX), None);
    assert_eq!(read_number(&chars_of("1x"), 0, 10, u64::MAX), None);
}

#[test]
fn texts_are_joined_in_order() {
    let parts = vec!["a".to_string(), "".to_string(), "c".to_string()];
    assert_eq!(join_texts(&parts, ", "), "a, , c");
    assert_eq!(join_texts(&vec!["a".to_string()], ", "), "a");
    assert_eq!(join_texts(&vec![], ", "), "");
}
