//! Addresses, and ranges of addresses and of line numbers, as requests write them.

use vstd::prelude::*;
use vstd::string::*;

use crate::text::{all_digits, chars_of, decimal, decimal_text, digit_of, law_numeral_reads_back, number_of, numeral, numeral_text, read_number, shown, trim, trimmed, whitespace};

verus! {

/// `s` without a leading `0x` or `0X`.
pub open spec fn hex_digits_of(s: Seq<char>) -> Seq<char> {
    if s.len() >= 2 && s[0] == '0' && (s[1] == 'x' || s[1] == 'X') {
        s.skip(2)
    } else {
        s
    }
}

/// The address that `s` writes: hexadecimal digits, with or without `0x` in front, of at most
/// 64 bits.
pub open spec fn hex_addr(s: Seq<char>) -> Result<u64, Seq<char>> {
    match number_of(hex_digits_of(s), 16, u64::MAX as nat) {
        Some(v) => Ok(v as u64),
        None => Err("Invalid hex address: '"@ + s + "'"@),
    }
}

/// Reads a hexadecimal address such as `0xbffff000`.
pub fn parse_hex_addr(s: &str) -> (r: Result<u64, String>)
    ensures
        shown(r) == hex_addr(s@),
{
    let cs = chars_of(s);
    let from: usize = if cs.len() >= 2 && cs[0] == '0' && (cs[1] == 'x' || cs[1] == 'X') {
        2
    } else {
        0
    };
    assert(cs@.skip(from as int) =~= hex_digits_of(s@));
    match read_number(&cs, from, 16, u64::MAX) {
        Some(v) => Ok(v),
        None => {
            let mut m = "Invalid hex address: '".to_owned();
            m.append(s);
            m.append("'");
            Err(m)
        },
    }
}

/// What the decimal text `s` says: an optional `+` and digits, a number below two to the 32.
pub open spec fn u32_of(s: Seq<char>) -> Option<u32> {
    let digits = if s.len() > 0 && s[0] == '+' {
        s.skip(1)
    } else {
        s
    };
    match number_of(digits, 10, u32::MAX as nat) {
        Some(v) => Some(v as u32),
        None => None,
    }
}

/// Reads a decimal `u32`.
pub fn parse_u32(s: &str) -> (r: Option<u32>)
    ensures
        r == u32_of(s@),
{
    let cs = chars_of(s);
    let from: usize = if cs.len() > 0 && cs[0] == '+' {
        1
    } else {
        0
    };
    assert(from == 0 ==> cs@.skip(0) =~= cs@);
    match read_number(&cs, from, 10, 0xffff_ffff) {
        Some(v) => Some(v as u32),
        None => None,
    }
}

/// `i` is the place of the only `-` in `s`.
pub open spec fn only_dash(s: Seq<char>, i: int) -> bool {
    &&& 0 <= i < s.len()
    &&& s[i] == '-'
    &&& forall|j: int| 0 <= j < s.len() && j != i ==> s[j] != '-'
}

/// The two sides of the only `-` in `s`, without the white space round them.
pub open spec fn dash_sides(s: Seq<char>) -> Option<(Seq<char>, Seq<char>)> {
    if exists|i: int| only_dash(s, i) {
        let i = choose|i: int| only_dash(s, i);
        Some((trimmed(s.take(i)), trimmed(s.skip(i + 1))))
    } else {
        None
    }
}

fn split_at_dash<'a>(s: &'a str) -> (r: Option<(&'a str, &'a str)>)
    ensures
        match r {
            Some((a, b)) => dash_sides(s@) == Some((a@, b@)),
            None => dash_sides(s@) is None,
        },
{
    let cs = chars_of(s);
    let n: usize = cs.len();
    let mut first: usize = 0;
    while first < n && cs[first] != '-'
        invariant
            n == cs@.len(),
            first <= n,
            forall|j: int| 0 <= j < first ==> cs@[j] != '-',
        decreases n - first,
    {
        first = first + 1;
    }
    if first == n {
        return None;
    }
    let mut k: usize = first + 1;
    while k < n && cs[k] != '-'
        invariant
            n == cs@.len(),
            first < k <= n,
            forall|j: int| first < j < k ==> cs@[j] != '-',
        decreases n - k,
    {
        k = k + 1;
    }
    if k < n {
        assert(s@[first as int] == '-' && s@[k as int] == '-');
        return None;
    }
    assert(only_dash(s@, first as int));
    assert(s@.subrange(0, first as int) =~= s@.take(first as int));
    assert(s@.subrange(first + 1, n as int) =~= s@.skip(first + 1));
    Some((trim(s.substring_char(0, first)), trim(s.substring_char(first + 1, n))))
}

/// The range of addresses that `s` writes, its ends in order.
pub open spec fn addr_range(s: Seq<char>) -> Result<(u64, u64), Seq<char>> {
    match dash_sides(s) {
        None => Err(
            "Invalid addr_range format '"@ + s + "'. Expected: '0x246F00-0x249800'"@,
        ),
        Some((a, b)) => match (hex_addr(a), hex_addr(b)) {
            (Err(e), _) => Err(e),
            (Ok(_), Err(e)) => Err(e),
            (Ok(start), Ok(end)) => if start > end {
                Err(
                    "Invalid addr_range: start (0x"@ + numeral(start as nat, 16) + ") > end (0x"@
                        + numeral(end as nat, 16) + ")"@,
                )
            } else {
                Ok((start, end))
            },
        },
    }
}

/// Parse address range string like "0x246F00-0x249800"
pub fn parse_addr_range(range: &str) -> (r: Result<(u64, u64), String>)
    ensures
        shown(r) == addr_range(range@),
{
    let (a, b) = match split_at_dash(range) {
        Some(sides) => sides,
        None => {
            let mut m = "Invalid addr_range format '".to_owned();
            m.append(range);
            m.append("'. Expected: '0x246F00-0x249800'");
            return Err(m);
        },
    };
    let start: u64 = match parse_hex_addr(a) {
        Ok(v) => v,
        Err(e) => {
            return Err(e);
        },
    };
    let end: u64 = match parse_hex_addr(b) {
        Ok(v) => v,
        Err(e) => {
            return Err(e);
        },
    };
    if start > end {
        let mut m = "Invalid addr_range: start (0x".to_owned();
        m.append(numeral_text(start, 16).as_str());
        m.append(") > end (0x");
        m.append(numeral_text(end, 16).as_str());
        m.append(")");
        return Err(m);
    }
    Ok((start, end))
}

/// The range of line numbers that `s` writes, its ends in order.
pub open spec fn seq_range(s: Seq<char>) -> Result<(u32, u32), Seq<char>> {
    match dash_sides(s) {
        None => Err("Invalid seq_range format '"@ + s + "'. Expected: '3000-6000'"@),
        Some((a, b)) => match (u32_of(a), u32_of(b)) {
            (None, _) => Err("Invalid start seq: '"@ + a + "'"@),
            (Some(_), None) => Err("Invalid end seq: '"@ + b + "'"@),
            (Some(start), Some(end)) => if start > end {
                Err(
                    "Invalid seq_range: start ("@ + decimal(start as nat) + ") > end ("@ + decimal(
                        end as nat,
                    ) + ")"@,
                )
            } else {
                Ok((start, end))
            },
        },
    }
}

/// Parse seq range string like "3000-6000"
pub fn parse_seq_range(range: &str) -> (r: Result<(u32, u32), String>)
    ensures
        shown(r) == seq_range(range@),
{
    let (a, b) = match split_at_dash(range) {
        Some(sides) => sides,
        None => {
            let mut m = "Invalid seq_range format '".to_owned();
            m.append(range);
            m.append("'. Expected: '3000-6000'");
            return Err(m);
        },
    };
    let start: u32 = match parse_u32(a) {
        Some(v) => v,
        None => {
            let mut m = "Invalid start seq: '".to_owned();
            m.append(a);
            m.append("'");
            return Err(m);
        },
    };
    let end: u32 = match parse_u32(b) {
        Some(v) => v,
        None => {
            let mut m = "Invalid end seq: '".to_owned();
            m.append(b);
            m.append("'");
            return Err(m);
        },
    };
    if start > end {
        let mut m = "Invalid seq_range: start (".to_owned();
        m.append(decimal_text(start as u64).as_str());
        m.append(") > end (");
        m.append(decimal_text(end as u64).as_str());
        m.append(")");
        return Err(m);
    }
    Ok((start, end))
}

/// No character of `s` is white space or a dash.
spec fn plain(s: Seq<char>) -> bool {
    forall|i: int| 0 <= i < s.len() ==> !whitespace(#[trigger] s[i]) && s[i] != '-'
}

proof fn lemma_digits_plain(s: Seq<char>, radix: nat)
    requires
        all_digits(s, radix),
    ensures
        plain(s),
{
    assert forall|i: int| 0 <= i < s.len() implies !whitespace(#[trigger] s[i]) && s[i] != '-' by {
        assert(digit_of(s[i], radix) is Some);
    }
}

proof fn lemma_sides_of_plain(a: Seq<char>, b: Seq<char>)
    requires
        plain(a),
        plain(b),
    ensures
        dash_sides(a + seq!['-'] + b) == Some((a, b)),
{
    let s = a + seq!['-'] + b;
    let n = a.len() as int;
    assert forall|j: int| 0 <= j < s.len() && j != n implies s[j] != '-' by {
        assert(j < n ==> s[j] == a[j]);
        assert(j > n ==> s[j] == b[j - n - 1]);
    }
    assert(only_dash(s, n));
    let i = choose|i: int| only_dash(s, i);
    assert(i == n);
    assert(s.take(n) =~= a);
    assert(s.skip(n + 1) =~= b);
    assert(a.len() > 0 ==> !whitespace(a[0]) && !whitespace(a[a.len() - 1]));
    assert(b.len() > 0 ==> !whitespace(b[0]) && !whitespace(b[b.len() - 1]));
}

/// A range of line numbers, its ends in order, written in decimal with a dash between them reads
/// back as itself.
pub proof fn law_seq_range_reads_back(start: u32, end: u32)
    requires
        start <= end,
    ensures
        seq_range(decimal(start as nat) + seq!['-'] + decimal(end as nat)) == Ok::<
            (u32, u32),
            Seq<char>,
        >((start, end)),
{
    let (a, b) = (decimal(start as nat), decimal(end as nat));
    law_numeral_reads_back(start as nat, 10);
    law_numeral_reads_back(end as nat, 10);
    lemma_digits_plain(a, 10);
    lemma_digits_plain(b, 10);
    lemma_sides_of_plain(a, b);
    assert(digit_of(a[0], 10) is Some && digit_of(b[0], 10) is Some);
}

/// A range of addresses, its ends in order, written in hexadecimal with `0x` before each and a
/// dash between them reads back as itself.
pub proof fn law_addr_range_reads_back(start: u64, end: u64)
    requires
        start <= end,
    ensures
        addr_range(
            seq!['0', 'x'] + numeral(start as nat, 16) + seq!['-'] + (seq!['0', 'x'] + numeral(
                end as nat,
                16,
            )),
        ) == Ok::<(u64, u64), Seq<char>>((start, end)),
{
    lemma_hex_reads_back(start);
    lemma_hex_reads_back(end);
    lemma_sides_of_plain(
        seq!['0', 'x'] + numeral(start as nat, 16),
        seq!['0', 'x'] + numeral(end as nat, 16),
    );
}

proof fn lemma_hex_reads_back(v: u64)
    ensures
        plain(seq!['0', 'x'] + numeral(v as nat, 16)),
        hex_addr(seq!['0', 'x'] + numeral(v as nat, 16)) == Ok::<u64, Seq<char>>(v),
{
    let d = numeral(v as nat, 16);
    let s = seq!['0', 'x'] + d;
    law_numeral_reads_back(v as nat, 16);
    lemma_digits_plain(d, 16);
    assert(s.skip(2) =~= d);
    assert forall|i: int| 0 <= i < s.len() implies !whitespace(#[trigger] s[i]) && s[i] != '-' by {
        assert(i >= 2 ==> s[i] == d[i - 2]);
    }
}

/// A range that is read has its ends in order.
pub proof fn law_ranges_are_ordered(s: Seq<char>)
    ensures
        addr_range(s) matches Ok(r) ==> r.0 <= r.1,
        seq_range(s) matches Ok(r) ==> r.0 <= r.1,
{
}

/// A text is split at its dash where it has exactly one; the white space round the two sides does
/// not belong to them.
pub proof fn law_a_range_has_one_dash(s: Seq<char>, a: Seq<char>, b: Seq<char>)
    ensures
        !a.contains('-') && !b.contains('-') && s == a + seq!['-'] + b ==> dash_sides(s) == Some(
            (trimmed(a), trimmed(b)),
        ),
        dash_sides(s) is Some ==> exists|x: Seq<char>, y: Seq<char>|
            !x.contains('-') && !y.contains('-') && s == #[trigger] (x + seq!['-'] + y),
{
    if !a.contains('-') && !b.contains('-') && s == a + seq!['-'] + b {
        let n = a.len() as int;
        assert forall|j: int| 0 <= j < s.len() && j != n implies s[j] != '-' by {
            if j < n {
                assert(s[j] == a[j]);
                assert(a.contains(a[j]));
            } else {
                assert(s[j] == b[j - n - 1]);
                assert(b.contains(b[j - n - 1]));
            }
        }
        assert(s[n] == '-');
        assert(only_dash(s, n));
        let i = choose|i: int| only_dash(s, i);
        assert(i == n);
        assert(s.take(n) =~= a);
        assert(s.skip(n + 1) =~= b);
    }
    if dash_sides(s) is Some {
        let i = choose|i: int| only_dash(s, i);
        let (x, y) = (s.take(i), s.skip(i + 1));
        assert(s =~= x + seq!['-'] + y);
        assert(!x.contains('-') && !y.contains('-'));
    }
}

/// A line number is written with decimal digits, perhaps with one plus sign before them, and is
/// below two to the 32; anything else is no line number.
pub proof fn law_line_numbers_are_decimal(s: Seq<char>)
    ensures
        s.len() == 0 || s[0] != '+' ==> u32_of(s) == match number_of(s, 10, 4294967295) {
            Some(v) => Some(v as u32),
            None => None,
        },
        u32_of(seq!['+'] + s) == match number_of(s, 10, 4294967295) {
            Some(v) => Some(v as u32),
            None => None,
        },
{
    assert((seq!['+'] + s).skip(1) =~= s);
}

/// An address is written with hexadecimal digits, perhaps with one `0x` or `0X` before them, and
/// is below two to the 64; of anything else it is said that it is no address.
pub proof fn law_addresses_are_hexadecimal(s: Seq<char>, v: u64)
    ensures
        hex_addr(seq!['0', 'x'] + s) == Ok::<u64, Seq<char>>(v) <==> number_of(
            s,
            16,
            18446744073709551615,
        ) == Some(v as nat),
        hex_addr(seq!['0', 'X'] + s) == Ok::<u64, Seq<char>>(v) <==> number_of(
            s,
            16,
            18446744073709551615,
        ) == Some(v as nat),
        s.len() < 2 || s[0] != '0' || (s[1] != 'x' && s[1] != 'X') ==> (hex_addr(s) == Ok::<
            u64,
            Seq<char>,
        >(v) <==> number_of(s, 16, 18446744073709551615) == Some(v as nat)),
        hex_addr(s) matches Err(e) ==> e == "Invalid hex address: '"@ + s + "'"@,
{
    assert((seq!['0', 'x'] + s).skip(2) =~= s);
    assert((seq!['0', 'X'] + s).skip(2) =~= s);
}

/// A range of line numbers is two line numbers, the first not greater than the second, with a dash
/// between them; what is wrong with any other text is said of the first thing that is wrong.
pub proof fn law_what_a_seq_range_says(a: Seq<char>, b: Seq<char>, s: Seq<char>)
    requires
        !a.contains('-'),
        !b.contains('-'),
    ensures
        seq_range(a + seq!['-'] + b) == match (u32_of(trimmed(a)), u32_of(trimmed(b))) {
            (Some(x), Some(y)) if x <= y => Ok::<(u32, u32), Seq<char>>((x, y)),
            (Some(x), Some(y)) => Err(
                "Invalid seq_range: start ("@ + numeral(x as nat, 10) + ") > end ("@ + numeral(
                    y as nat,
                    10,
                ) + ")"@,
            ),
            (Some(_), None) => Err("Invalid end seq: '"@ + trimmed(b) + "'"@),
            (None, _) => Err("Invalid start seq: '"@ + trimmed(a) + "'"@),
        },
        !(exists|x: Seq<char>, y: Seq<char>|
            !x.contains('-') && !y.contains('-') && s == #[trigger] (x + seq!['-'] + y))
            ==> seq_range(s) == Err::<(u32, u32), Seq<char>>(
            "Invalid seq_range format '"@ + s + "'. Expected: '3000-6000'"@,
        ),
{
    law_a_range_has_one_dash(a + seq!['-'] + b, a, b);
    law_a_range_has_one_dash(s, a, b);
}

/// A range of addresses is two addresses, the first not greater than the second, with a dash
/// between them; what is wrong with any other text is said of the first thing that is wrong.
pub proof fn law_what_an_addr_range_says(a: Seq<char>, b: Seq<char>, s: Seq<char>)
    requires
        !a.contains('-'),
        !b.contains('-'),
    ensures
        addr_range(a + seq!['-'] + b) == match (hex_addr(trimmed(a)), hex_addr(trimmed(b))) {
            (Ok(x), Ok(y)) if x <= y => Ok::<(u64, u64), Seq<char>>((x, y)),
            (Ok(x), Ok(y)) => Err(
                "Invalid addr_range: start (0x"@ + numeral(x as nat, 16) + ") > end (0x"@ + numeral(
                    y as nat,
                    16,
                ) + ")"@,
            ),
            (Ok(_), Err(e)) => Err(e),
            (Err(e), _) => Err(e),
        },
        !(exists|x: Seq<char>, y: Seq<char>|
            !x.contains('-') && !y.contains('-') && s == #[trigger] (x + seq!['-'] + y))
            ==> addr_range(s) == Err::<(u64, u64), Seq<char>>(
            "Invalid addr_range format '"@ + s + "'. Expected: '0x246F00-0x249800'"@,
        ),
{
    law_a_range_has_one_dash(a + seq!['-'] + b, a, b);
    law_a_range_has_one_dash(s, a, b);
}

} // verus!
