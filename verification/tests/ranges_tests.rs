use trace_tools::ranges::{parse_addr_range, parse_hex_addr, parse_seq_range, parse_u32};
use trace_tools::text::numeral_text;

#[test]
fn hex_addresses() {
    assert_eq!(parse_hex_addr("0xbffff000"), Ok(0xbffff000));
    assert_eq!(parse_hex_addr("0X1F"), Ok(0x1f));
    assert_eq!(parse_hex_addr("249800"), Ok(0x249800));
    assert_eq!(parse_hex_addr("0xffffffffffffffff"), Ok(u64::MAX));
}

#[test]
fn wrong_hex_addresses() {
    for s in ["", "0x", "xyz", "0x10000000000000000"] {
        assert_eq!(parse_hex_addr(s), Err(format!("Invalid hex address: '{}'", s)));
    }
}

#[test]
fn decimal_numbers_are_read_as_std_reads_them() {
    for s in ["0", "007", "+5", "4294967295", "4294967296", "-1", "", "+", "1 2", "12a", "++1"] {
        assert_eq!(parse_u32(s), s.parse::<u32>().ok(), "{}", s);
    }
}

#[test]
fn address_ranges() {
    assert_eq!(parse_addr_range("0x246F00-0x249800"), Ok((0x246f00, 0x249800)));
    assert_eq!(parse_addr_range(" 0x10 - 0x10 "), Ok((16, 16)));
}

#[test]
fn address_range_errors() {
    assert_eq!(
        parse_addr_range("0x10"),
        Err("Invalid addr_range format '0x10'. Expected: '0x246F00-0x249800'".to_string())
    );
    assert_eq!(
        parse_addr_range("1-2-3"),
        Err("Invalid addr_range format '1-2-3'. Expected: '0x246F00-0x249800'".to_string())
    );
    assert_eq!(
        parse_addr_range("0x20-0x1f"),
        Err("Invalid addr_range: start (0x20) > end (0x1f)".to_string())
    );
    assert_eq!(parse_addr_range("zz-1"), Err("Invalid hex address: 'zz'".to_string()));
    assert_eq!(parse_addr_range("1-"), Err("Invalid hex address: ''".to_string()));
}

#[test]
fn seq_ranges() {
    assert_eq!(parse_seq_range("3000-6000"), Ok((3000, 6000)));
    assert_eq!(parse_seq_range(" 5 -\t5"), Ok((5, 5)));
    assert_eq!(parse_seq_range("0-4294967295"), Ok((0, u32::MAX)));
}

#[test]
fn seq_range_errors() {
    assert_eq!(
        parse_seq_range("3000"),
        Err("Invalid seq_range format '3000'. Expected: '3000-6000'".to_string())
    );
    assert_eq!(
        parse_seq_range(""),
        Err("Invalid seq_range format ''. Expected: '3000-6000'".to_string())
    );
    assert_eq!(parse_seq_range(" a -2"), Err("Invalid start seq: 'a'".to_string()));
    assert_eq!(parse_seq_range("1-b"), Err("Invalid end seq: 'b'".to_string()));
    assert_eq!(parse_seq_range("1-4294967296"), Err("Invalid end seq: '4294967296'".to_string()));
    assert_eq!(
        parse_seq_range("6000-3000"),
        Err("Invalid seq_range: start (6000) > end (3000)".to_string())
    );
}

#[test]
fn written_ranges_are_read_back() {
    for (a, b) in [(0u64, 0u64), (1, 2), (0x246f00, 0x249800), (7, u64::MAX)] {
        let text = format!("0x{}-0x{}", numeral_text(a, 16), numeral_text(b, 16));
        assert_eq!(parse_addr_range(&text), Ok((a, b)));
    }
    for (a, b) in [(0u32, 0u32), (3000, 6000), (9, u32::MAX)] {
        assert_eq!(parse_seq_range(&format!("{}-{}", a, b)), Ok((a, b)));
    }
}
