//! Strings as sequences of characters: white space, words, numbers.

use vstd::prelude::*;
use vstd::string::*;
use vstd::utf8::is_ascii_chars;

verus! {

/// The characters with the Unicode property `White_Space`.
pub open spec fn whitespace(c: char) -> bool {
    let u = c as u32;
    ||| 0x9 <= u <= 0xd
    ||| u == 0x20
    ||| u == 0x85
    ||| u == 0xa0
    ||| u == 0x1680
    ||| 0x2000 <= u <= 0x200a
    ||| u == 0x2028
    ||| u == 0x2029
    ||| u == 0x202f
    ||| u == 0x205f
    ||| u == 0x3000
}

/// Whether `c` is white space.
pub fn is_whitespace(c: char) -> (b: bool)
    ensures
        b == whitespace(c),
{
    let u: u32 = c as u32;
    (0x9 <= u && u <= 0xd) || u == 0x20 || u == 0x85 || u == 0xa0 || u == 0x1680 || (0x2000 <= u
        && u <= 0x200a) || u == 0x2028 || u == 0x2029 || u == 0x202f || u == 0x205f || u == 0x3000
}

/// The characters of `s`, in order.
pub fn chars_of(s: &str) -> (v: Vec<char>)
    ensures
        v@ == s@,
{
    let mut v: Vec<char> = Vec::new();
    for c in it: s.chars()
        invariant
            it.seq() == s@,
            v@ == it.seq().take(it.index() as int),
    {
        v.push(c);
    }
    v
}

/// `s` without its leading white space.
pub open spec fn trim_start(s: Seq<char>) -> Seq<char>
    decreases s.len(),
{
    if s.len() > 0 && whitespace(s.first()) {
        trim_start(s.drop_first())
    } else {
        s
    }
}

/// `s` without its trailing white space.
pub open spec fn trim_end(s: Seq<char>) -> Seq<char>
    decreases s.len(),
{
    if s.len() > 0 && whitespace(s.last()) {
        trim_end(s.drop_last())
    } else {
        s
    }
}

/// `s` without the white space at its two ends.
pub open spec fn trimmed(s: Seq<char>) -> Seq<char> {
    trim_end(trim_start(s))
}

proof fn lemma_trim_start_skips(s: Seq<char>, i: int)
    requires
        0 <= i <= s.len(),
        forall|j: int| 0 <= j < i ==> whitespace(s[j]),
    ensures
        trim_start(s) == trim_start(s.subrange(i, s.len() as int)),
    decreases i,
{
    if i > 0 {
        lemma_trim_start_skips(s, i - 1);
        let t = s.subrange(i - 1, s.len() as int);
        assert(t.first() == s[i - 1]);
        assert(t.drop_first() =~= s.subrange(i, s.len() as int));
    } else {
        assert(s.subrange(0, s.len() as int) =~= s);
    }
}

proof fn lemma_trim_end_skips(s: Seq<char>, k: int)
    requires
        0 <= k <= s.len(),
        forall|j: int| k <= j < s.len() ==> whitespace(s[j]),
    ensures
        trim_end(s) == trim_end(s.take(k)),
    decreases s.len() - k,
{
    if k < s.len() {
        lemma_trim_end_skips(s, k + 1);
        let t = s.take(k + 1);
        assert(t.last() == s[k]);
        assert(t.drop_last() =~= s.take(k));
    } else {
        assert(s.take(k) =~= s);
    }
}

/// `s` without the white space at its two ends.
pub fn trim<'a>(s: &'a str) -> (r: &'a str)
    ensures
        r@ == trimmed(s@),
{
    let cs = chars_of(s);
    let n: usize = cs.len();
    let mut i: usize = 0;
    while i < n && is_whitespace(cs[i])
        invariant
            n == cs@.len(),
            i <= n,
            forall|j: int| 0 <= j < i ==> whitespace(cs@[j]),
        decreases n - i,
    {
        i = i + 1;
    }
    let mut k: usize = n;
    while i < k && is_whitespace(cs[k - 1])
        invariant
            n == cs@.len(),
            i <= k <= n,
            forall|j: int| k <= j < n ==> whitespace(cs@[j]),
        decreases k,
    {
        k = k - 1;
    }
    proof {
        let t = cs@.subrange(i as int, n as int);
        lemma_trim_start_skips(cs@, i as int);
        assert(i < n ==> t.first() == cs@[i as int]);
        assert(trim_start(cs@) == t);
        lemma_trim_end_skips(t, k - i);
        let u = t.take(k - i);
        assert(i < k ==> u.last() == cs@[k - 1]);
        assert(u =~= cs@.subrange(i as int, k as int));
    }
    s.substring_char(i, k)
}

/// The maximal runs of characters in `s` that are not white space, in order.
pub open spec fn words(s: Seq<char>) -> Seq<Seq<char>>
    decreases s.len(),
{
    if s.len() == 0 {
        Seq::empty()
    } else {
        let front = words(s.drop_last());
        if whitespace(s.last()) {
            front
        } else if s.len() >= 2 && !whitespace(s[s.len() - 2]) {
            front.drop_last().push(front.last().push(s.last()))
        } else {
            front.push(seq![s.last()])
        }
    }
}

/// The pieces of `s` that the index pairs in `spans` mark.
pub open spec fn pieces(s: Seq<char>, spans: Seq<(usize, usize)>) -> Seq<Seq<char>> {
    Seq::new(spans.len(), |i: int| s.subrange(spans[i].0 as int, spans[i].1 as int))
}

/// `span` marks a piece of a text of `n` characters.
pub open spec fn within(span: (usize, usize), n: int) -> bool {
    span.0 <= span.1 <= n
}

/// Where the words of `cs` begin and end.
pub fn word_spans(cs: &Vec<char>) -> (spans: Vec<(usize, usize)>)
    ensures
        pieces(cs@, spans@) == words(cs@),
        forall|i: int| 0 <= i < spans@.len() ==> within(#[trigger] spans@[i], cs@.len() as int),
{
    let n: usize = cs.len();
    let mut spans: Vec<(usize, usize)> = Vec::new();
    let mut start: usize = 0;
    let mut i: usize = 0;
    while i < n
        invariant
            n == cs@.len(),
            start <= i <= n,
            forall|j: int| start <= j < i ==> !whitespace(#[trigger] cs@[j]),
            start > 0 ==> whitespace(cs@[start - 1]),
            forall|j: int|
                0 <= j < spans@.len() ==> within(#[trigger] spans@[j], n as int),
            start < i ==> words(cs@.take(i as int)) == pieces(cs@, spans@).push(
                cs@.subrange(start as int, i as int),
            ),
            start == i ==> words(cs@.take(i as int)) == pieces(cs@, spans@),
        decreases n - i,
    {
        proof {
            let t = cs@.take(i + 1);
            assert(t.drop_last() =~= cs@.take(i as int));
            assert(t.last() == cs@[i as int]);
            assert(i >= 1 ==> t[t.len() - 2] == cs@[i - 1]);
            assert(start < i ==> cs@.subrange(start as int, i as int).push(cs@[i as int])
                =~= cs@.subrange(start as int, i + 1));
            assert(start < i ==> pieces(cs@, spans@).push(
                cs@.subrange(start as int, i as int),
            ).drop_last() =~= pieces(cs@, spans@));
            assert(start == i ==> seq![cs@[i as int]] =~= cs@.subrange(start as int, i + 1));
        }
        if is_whitespace(cs[i]) {
            if start < i {
                let ghost before = spans@;
                spans.push((start, i));
                assert(pieces(cs@, spans@) =~= pieces(cs@, before).push(
                    cs@.subrange(start as int, i as int),
                ));
            }
            start = i + 1;
        }
        i = i + 1;
    }
    assert(cs@.take(n as int) =~= cs@);
    if start < n {
        let ghost before = spans@;
        spans.push((start, n));
        assert(pieces(cs@, spans@) =~= pieces(cs@, before).push(
            cs@.subrange(start as int, n as int),
        ));
    }
    spans
}

/// Whether `cs` spells `lit`.
pub fn spells(cs: &[char], lit: &str) -> (b: bool)
    ensures
        b == (cs@ == lit@),
{
    let ls = chars_of(lit);
    if cs.len() != ls.len() {
        return false;
    }
    let mut i: usize = 0;
    while i < cs.len()
        invariant
            cs@.len() == ls@.len(),
            ls@ == lit@,
            i <= cs@.len(),
            forall|j: int| 0 <= j < i ==> cs@[j] == ls@[j],
        decreases cs@.len() - i,
    {
        if cs[i] != ls[i] {
            assert(cs@[i as int] != ls@[i as int]);
            return false;
        }
        i = i + 1;
    }
    assert(cs@ =~= ls@);
    true
}

/// `needle` stands in `s` at `i`.
pub open spec fn text_at(s: Seq<char>, needle: Seq<char>, i: int) -> bool {
    0 <= i && i + needle.len() <= s.len() && s.subrange(i, i + needle.len()) == needle
}

/// `needle` stands somewhere in `s`.
pub open spec fn contains_text(s: Seq<char>, needle: Seq<char>) -> bool {
    exists|i: int| text_at(s, needle, i)
}

/// Whether `needle` stands somewhere in `s`.
pub fn str_contains(s: &str, needle: &str) -> (b: bool)
    ensures
        b == contains_text(s@, needle@),
{
    let hs = chars_of(s);
    let ns = chars_of(needle);
    let n: usize = hs.len();
    let m: usize = ns.len();
    if m > n {
        return false;
    }
    let mut i: usize = 0;
    while i <= n - m
        invariant
            hs@ == s@,
            ns@ == needle@,
            n == hs@.len(),
            m == ns@.len(),
            m <= n,
            i <= n - m + 1,
            forall|k: int| 0 <= k < i ==> !text_at(s@, needle@, k),
        decreases n - m + 1 - i,
    {
        let mut j: usize = 0;
        while j < m && hs[i + j] == ns[j]
            invariant
                n == hs@.len(),
                m == ns@.len(),
                i + m <= n,
                j <= m,
                forall|k: int| 0 <= k < j ==> hs@[i + k] == ns@[k],
            decreases m - j,
        {
            j = j + 1;
        }
        let ghost w = hs@.subrange(i as int, i + m);
        if j == m {
            assert(w =~= ns@);
            assert(text_at(s@, needle@, i as int));
            return true;
        }
        assert(w[j as int] == hs@[i + j]);
        assert(!text_at(s@, needle@, i as int));
        i = i + 1;
    }
    false
}

/// The digit that `c` stands for in base `radix`, at most 16.
pub open spec fn digit_of(c: char, radix: nat) -> Option<nat> {
    let d = if '0' <= c <= '9' {
        Some((c as int - '0' as int) as nat)
    } else if 'a' <= c <= 'f' {
        Some((c as int - 'a' as int + 10) as nat)
    } else if 'A' <= c <= 'F' {
        Some((c as int - 'A' as int + 10) as nat)
    } else {
        None
    };
    match d {
        Some(v) if v < radix => Some(v),
        _ => None,
    }
}

/// Every character of `s` is a digit in base `radix`.
pub open spec fn all_digits(s: Seq<char>, radix: nat) -> bool {
    forall|i: int| 0 <= i < s.len() ==> digit_of(#[trigger] s[i], radix) is Some
}

/// The number that the digits `s` write in base `radix`.
pub open spec fn value_of(s: Seq<char>, radix: nat) -> nat
    decreases s.len(),
{
    if s.len() == 0 {
        0
    } else {
        value_of(s.drop_last(), radix) * radix + digit_of(s.last(), radix).unwrap_or(0)
    }
}

/// The number of at most `max` that `s` writes in base `radix`, one digit or more.
pub open spec fn number_of(s: Seq<char>, radix: nat, max: nat) -> Option<nat> {
    if s.len() > 0 && all_digits(s, radix) && value_of(s, radix) <= max {
        Some(value_of(s, radix))
    } else {
        None
    }
}

proof fn lemma_value_grows(s: Seq<char>, radix: nat, i: int)
    requires
        0 <= i <= s.len(),
        radix >= 1,
    ensures
        value_of(s.take(i), radix) <= value_of(s, radix),
    decreases s.len() - i,
{
    if i < s.len() {
        lemma_value_grows(s, radix, i + 1);
        let t = s.take(i + 1);
        assert(t.drop_last() =~= s.take(i));
        let v = value_of(s.take(i), radix);
        assert(v * radix >= v) by (nonlinear_arith)
            requires
                radix >= 1,
        ;
    } else {
        assert(s.take(i) =~= s);
    }
}

fn digit(c: char, radix: u64) -> (d: Option<u64>)
    requires
        radix <= 16,
    ensures
        match d {
            Some(v) => digit_of(c, radix as nat) == Some(v as nat) && v < radix,
            None => digit_of(c, radix as nat) is None,
        },
{
    let v: u64 = if '0' <= c && c <= '9' {
        c as u64 - '0' as u64
    } else if 'a' <= c && c <= 'f' {
        c as u64 - 'a' as u64 + 10
    } else if 'A' <= c && c <= 'F' {
        c as u64 - 'A' as u64 + 10
    } else {
        return None;
    };
    if v < radix {
        Some(v)
    } else {
        None
    }
}

/// Reads `cs[from..]` as a number of at most `max` in base `radix`.
pub fn read_number(cs: &Vec<char>, from: usize, radix: u64, max: u64) -> (r: Option<u64>)
    requires
        from <= cs@.len(),
        2 <= radix <= 16,
    ensures
        match r {
            Some(v) => number_of(cs@.skip(from as int), radix as nat, max as nat) == Some(v as nat),
            None => number_of(cs@.skip(from as int), radix as nat, max as nat) is None,
        },
{
    let n: usize = cs.len();
    let ghost s = cs@.skip(from as int);
    if from == n {
        return None;
    }
    let mut acc: u64 = 0;
    let mut i: usize = from;
    assert(s.take(0) =~= Seq::<char>::empty());
    while i < n
        invariant
            n == cs@.len(),
            from <= i <= n,
            2 <= radix <= 16,
            s == cs@.skip(from as int),
            acc <= max,
            acc == value_of(s.take(i - from), radix as nat),
            all_digits(s.take(i - from), radix as nat),
        decreases n - i,
    {
        let ghost t = s.take(i - from + 1);
        proof {
            assert(s[i - from] == cs@[i as int]);
            assert(t.drop_last() =~= s.take(i - from));
            assert(t.last() == cs@[i as int]);
        }
        match digit(cs[i], radix) {
            None => {
                assert(digit_of(s[i - from], radix as nat) is None);
                return None;
            },
            Some(d) => {
                assert(acc * radix + d <= 0xffff_ffff_ffff_ffff * 16 + 15) by (nonlinear_arith)
                    requires
                        acc <= 0xffff_ffff_ffff_ffff,
                        radix <= 16,
                        d < radix,
                ;
                assert(acc as u128 * radix as u128 == acc * radix);
                let next: u128 = acc as u128 * radix as u128 + d as u128;
                assert(next == value_of(t, radix as nat));
                if next > max as u128 {
                    proof {
                        lemma_value_grows(s, radix as nat, i - from + 1);
                    }
                    return None;
                }
                assert forall|j: int| 0 <= j < t.len() implies digit_of(
                    #[trigger] t[j],
                    radix as nat,
                ) is Some by {
                    assert(j < i - from ==> t[j] == s.take(i - from)[j]);
                }
                acc = next as u64;
            },
        }
        i = i + 1;
    }
    assert(s.take(n - from) =~= s);
    Some(acc)
}

/// The character for the digit `d`, below 16.
pub open spec fn digit_char(d: nat) -> char {
    if d < 10 {
        ('0' as int + d) as char
    } else {
        ('a' as int + d - 10) as char
    }
}

/// `n` written in base `radix`, without leading zeros.
pub open spec fn numeral(n: nat, radix: nat) -> Seq<char>
    decreases n,
{
    if n < radix || radix < 2 {
        seq![digit_char(n)]
    } else {
        proof {
            assert(n / radix < n) by (nonlinear_arith)
                requires
                    n >= radix,
                    radix >= 2,
            ;
        }
        numeral(n / radix, radix).push(digit_char(n % radix))
    }
}

/// `n` written in base ten.
pub open spec fn decimal(n: nat) -> Seq<char> {
    numeral(n, 10)
}

fn digit_text(d: u64) -> (r: &'static str)
    requires
        d < 16,
    ensures
        r@ == seq![digit_char(d as nat)],
{
    proof {
        reveal_strlit("0");
        reveal_strlit("1");
        reveal_strlit("2");
        reveal_strlit("3");
        reveal_strlit("4");
        reveal_strlit("5");
        reveal_strlit("6");
        reveal_strlit("7");
        reveal_strlit("8");
        reveal_strlit("9");
        reveal_strlit("a");
        reveal_strlit("b");
        reveal_strlit("c");
        reveal_strlit("d");
        reveal_strlit("e");
        reveal_strlit("f");
    }
    let r = if d == 0 {
        "0"
    } else if d == 1 {
        "1"
    } else if d == 2 {
        "2"
    } else if d == 3 {
        "3"
    } else if d == 4 {
        "4"
    } else if d == 5 {
        "5"
    } else if d == 6 {
        "6"
    } else if d == 7 {
        "7"
    } else if d == 8 {
        "8"
    } else if d == 9 {
        "9"
    } else if d == 10 {
        "a"
    } else if d == 11 {
        "b"
    } else if d == 12 {
        "c"
    } else if d == 13 {
        "d"
    } else if d == 14 {
        "e"
    } else {
        "f"
    };
    assert(r@ =~= seq![digit_char(d as nat)]);
    r
}

/// `n` written in base `radix`.
pub fn numeral_text(n: u64, radix: u64) -> (r: String)
    requires
        2 <= radix <= 16,
    ensures
        r@ == numeral(n as nat, radix as nat),
    decreases n,
{
    if n < radix {
        digit_text(n).to_owned()
    } else {
        assert(n / radix < n) by (nonlinear_arith)
            requires
                n >= radix,
                radix >= 2,
        ;
        let mut r = numeral_text(n / radix, radix);
        r.append(digit_text(n % radix));
        assert(r@ =~= numeral(n as nat, radix as nat));
        r
    }
}

/// `n` written in base ten.
pub fn decimal_text(n: u64) -> (r: String)
    ensures
        r@ == decimal(n as nat),
{
    numeral_text(n, 10)
}

/// Reading back what was written gives the number: every number is the value of its numeral,
/// which is all digits and not empty.
pub proof fn law_numeral_reads_back(n: nat, radix: nat)
    requires
        2 <= radix <= 16,
    ensures
        numeral(n, radix).len() > 0,
        all_digits(numeral(n, radix), radix),
        value_of(numeral(n, radix), radix) == n,
    decreases n,
{
    let s = numeral(n, radix);
    if n < radix {
        assert(s.drop_last() =~= Seq::<char>::empty());
        assert(digit_of(s[0], radix) == Some(n));
        assert(value_of(s.drop_last(), radix) * radix == 0) by (nonlinear_arith)
            requires
                value_of(s.drop_last(), radix) == 0,
        ;
    } else {
        assert(n / radix < n) by (nonlinear_arith)
            requires
                n >= radix,
                radix >= 2,
        ;
        assert(0 <= n % radix < radix) by (nonlinear_arith)
            requires
                radix >= 2,
        ;
        assert(n == (n / radix) * radix + n % radix) by (nonlinear_arith)
            requires
                radix >= 2,
        ;
        law_numeral_reads_back(n / radix, radix);
        let front = numeral(n / radix, radix);
        assert(s.drop_last() =~= front);
        assert(digit_of(s.last(), radix) == Some((n % radix) as nat));
        assert forall|i: int| 0 <= i < s.len() implies digit_of(#[trigger] s[i], radix) is Some by {
            assert(i < front.len() ==> s[i] == front[i]);
        }
    }
}

/// The texts in `parts`, in order, with `sep` between them.
pub open spec fn joined(parts: Seq<Seq<char>>, sep: Seq<char>) -> Seq<char>
    decreases parts.len(),
{
    if parts.len() == 0 {
        Seq::empty()
    } else if parts.len() == 1 {
        parts[0]
    } else {
        joined(parts.drop_last(), sep) + sep + parts.last()
    }
}

/// The characters of each text.
pub open spec fn texts(parts: Seq<String>) -> Seq<Seq<char>> {
    Seq::new(parts.len(), |i: int| parts[i]@)
}

/// The texts in `parts`, in order, with `sep` between them.
pub fn join_texts(parts: &Vec<String>, sep: &str) -> (r: String)
    ensures
        r@ == joined(texts(parts@), sep@),
{
    let mut r = String::new();
    let mut i: usize = 0;
    while i < parts.len()
        invariant
            i <= parts@.len(),
            r@ == joined(texts(parts@).take(i as int), sep@),
        decreases parts@.len() - i,
    {
        let ghost before = texts(parts@).take(i as int);
        let ghost after = texts(parts@).take(i + 1);
        assert(after.drop_last() =~= before);
        if i > 0 {
            r.append(sep);
        }
        r.append(parts[i].as_str());
        assert(i == 0 ==> r@ =~= parts@[i as int]@);
        i = i + 1;
    }
    assert(texts(parts@).take(parts@.len() as int) =~= texts(parts@));
    r
}

/// `true` or `false`.
pub open spec fn truth(b: bool) -> Seq<char> {
    if b {
        "true"@
    } else {
        "false"@
    }
}

/// What a function that reports its errors as text returned, the text taken by its characters.
pub open spec fn shown<T>(r: Result<T, String>) -> Result<T, Seq<char>> {
    match r {
        Ok(v) => Ok(v),
        Err(e) => Err(e@),
    }
}

/// What `str::to_lowercase` makes of the characters `s`.
pub uninterp spec fn lowercase(s: Seq<char>) -> Seq<char>;

/// `c` with an ASCII capital made small.
pub open spec fn ascii_lower_char(c: char) -> char {
    if 'A' <= c <= 'Z' {
        (c as int + 32) as char
    } else {
        c
    }
}

/// The characters `s` with every ASCII capital made small.
pub open spec fn ascii_lowered(s: Seq<char>) -> Seq<char> {
    s.map_values(|c: char| ascii_lower_char(c))
}

/// `str::to_lowercase` of std. Claimed of it: the result depends on the characters alone, and
/// of a text in ASCII it changes the capitals only, each to its small letter.
pub assume_specification[ str::to_lowercase ](s: &str) -> (r: String)
    ensures
        r@ == lowercase(s@),
        is_ascii_chars(s@) ==> r@ == ascii_lowered(s@),
;

/// What is left of a text once the white space round it is gone is a piece of it: everything before
/// and behind the piece is white space, and the piece neither starts nor ends with any.
pub proof fn law_trimming_removes_the_white_space_round_a_text(s: Seq<char>)
    ensures
        exists|a: int, b: int| #![trigger s.subrange(a, b)]
            {
                &&& 0 <= a <= b <= s.len()
                &&& trimmed(s) == s.subrange(a, b)
                &&& forall|i: int| 0 <= i < a ==> whitespace(#[trigger] s[i])
                &&& forall|i: int| b <= i < s.len() ==> whitespace(#[trigger] s[i])
                &&& a < b ==> !whitespace(s[a]) && !whitespace(s[b - 1])
            },
{
    let a = lemma_start_of_trimmed(s);
    let t = s.skip(a);
    let n = lemma_end_of_trimmed(t);
    assert(trimmed(s) =~= s.subrange(a, a + n));
    assert forall|i: int| a + n <= i < s.len() implies whitespace(#[trigger] s[i]) by {
        assert(t[i - a] == s[i]);
    }
    if n > 0 {
        assert(t[n - 1] == s[a + n - 1]);
    }
}

proof fn lemma_start_of_trimmed(s: Seq<char>) -> (a: int)
    ensures
        0 <= a <= s.len(),
        trim_start(s) == s.skip(a),
        forall|i: int| 0 <= i < a ==> whitespace(#[trigger] s[i]),
        a < s.len() ==> !whitespace(s[a]),
    decreases s.len(),
{
    if s.len() > 0 && whitespace(s.first()) {
        let rest = s.drop_first();
        let a = lemma_start_of_trimmed(rest);
        assert(rest.skip(a) =~= s.skip(a + 1));
        assert forall|i: int| 0 <= i < a + 1 implies whitespace(#[trigger] s[i]) by {
            if i > 0 {
                assert(rest[i - 1] == s[i]);
            }
        }
        a + 1
    } else {
        assert(s.skip(0) =~= s);
        0
    }
}

proof fn lemma_end_of_trimmed(s: Seq<char>) -> (n: int)
    ensures
        0 <= n <= s.len(),
        trim_end(s) == s.take(n),
        forall|i: int| n <= i < s.len() ==> whitespace(#[trigger] s[i]),
        n > 0 ==> !whitespace(s[n - 1]),
    decreases s.len(),
{
    if s.len() > 0 && whitespace(s.last()) {
        let rest = s.drop_last();
        let n = lemma_end_of_trimmed(rest);
        assert(rest.take(n) =~= s.take(n));
        assert forall|i: int| n <= i < s.len() implies whitespace(#[trigger] s[i]) by {
            if i < rest.len() {
                assert(rest[i] == s[i]);
            }
        }
        n
    } else {
        assert(s.take(s.len() as int) =~= s);
        s.len() as int
    }
}

proof fn lemma_words_nonempty(s: Seq<char>)
    requires
        s.len() > 0,
        !whitespace(s.last()),
    ensures
        words(s).len() > 0,
{
}

/// White space parts words and nothing else does: the words of two texts with a white space
/// character between them are those of the first and then those of the second, and a text without
/// any is one word.
pub proof fn law_white_space_parts_words(a: Seq<char>, c: char, b: Seq<char>)
    ensures
        whitespace(c) ==> words(a.push(c) + b) == words(a) + words(b),
        words(Seq::<char>::empty()).len() == 0,
        b.len() > 0 && (forall|i: int| 0 <= i < b.len() ==> !whitespace(#[trigger] b[i]))
            ==> words(b) == seq![b],
    decreases b.len(),
{
    let s = a.push(c) + b;
    if b.len() == 0 {
        assert(s.drop_last() =~= a);
        assert(words(a) + words(b) =~= words(a));
    } else {
        let (rest, d) = (b.drop_last(), b.last());
        law_white_space_parts_words(a, c, rest);
        assert(s.drop_last() =~= a.push(c) + rest);
        if whitespace(c) {
            let front = words(a) + words(rest);
            if whitespace(d) {
            } else if rest.len() > 0 && !whitespace(rest.last()) {
                lemma_words_nonempty(rest);
                assert(s[s.len() - 2] == rest.last());
                assert(b[b.len() - 2] == rest.last());
                assert(front.last() == words(rest).last());
                assert(front.drop_last() =~= words(a) + words(rest).drop_last());
                assert(words(s) =~= words(a) + words(b));
            } else {
                assert(rest.len() > 0 ==> s[s.len() - 2] == rest.last());
                assert(rest.len() == 0 ==> s[s.len() - 2] == c);
                assert(words(s) =~= words(a) + words(b));
            }
        }
        if forall|i: int| 0 <= i < b.len() ==> !whitespace(#[trigger] b[i]) {
            assert(!whitespace(b[b.len() - 1]));
            if rest.len() > 0 {
                assert forall|i: int| 0 <= i < rest.len() implies !whitespace(
                    #[trigger] rest[i],
                ) by {
                    assert(rest[i] == b[i]);
                }
                assert(!whitespace(b[b.len() - 2]));
                assert(words(rest) == seq![rest]);
                assert(words(b)[0] =~= b);
            } else {
                assert(b =~= seq![d]);
            }
            assert(words(b) =~= seq![b]);
        }
    }
}

/// A text holds another exactly if it is made of something, the other text, and something more.
pub proof fn law_a_text_holds_its_pieces(s: Seq<char>, needle: Seq<char>)
    ensures
        contains_text(s, needle) <==> exists|a: Seq<char>, b: Seq<char>| s == #[trigger] (a + needle
            + b),
{
    if contains_text(s, needle) {
        let i = choose|i: int| text_at(s, needle, i);
        let (a, b) = (s.take(i), s.skip(i + needle.len()));
        assert(s =~= a + needle + b) by {
            assert forall|j: int| 0 <= j < needle.len() implies s[i + j] == needle[j] by {
                assert(s.subrange(i, i + needle.len())[j] == s[i + j]);
            }
        }
    }
    if exists|a: Seq<char>, b: Seq<char>| s == #[trigger] (a + needle + b) {
        let (a, b) = choose|a: Seq<char>, b: Seq<char>| s == #[trigger] (a + needle + b);
        let i = a.len() as int;
        assert(s.subrange(i, i + needle.len()) =~= needle);
        assert(text_at(s, needle, i));
    }
}

/// A character is a digit exactly if it is one of `0` to `9` or, from ten on, one of `a` to `f` or
/// `A` to `F`, and less than the base; and it stands for its place in that row.
pub proof fn law_digits(c: char, radix: nat, v: nat)
    requires
        radix <= 16,
    ensures
        digit_of(c, radix) == Some(v) <==> v < radix && (c as u32 == 48 + v && v < 10 || c as u32
            == 87 + v && 10 <= v || c as u32 == 55 + v && 10 <= v),
{
}

/// A row of digits stands for the value that each of them gives its place: one digit more behind
/// a row multiplies what it stood for by the base and adds the digit. Where the row is not empty,
/// has digits only and its value is not over the limit, it is a number; else it is none.
pub proof fn law_values_of_digits(s: Seq<char>, c: char, radix: nat, max: nat)
    ensures
        value_of(Seq::<char>::empty(), radix) == 0,
        digit_of(c, radix) matches Some(d) ==> value_of(s.push(c), radix) == value_of(s, radix)
            * radix + d,
        number_of(s, radix, max) is Some <==> s.len() > 0 && (forall|i: int|
            0 <= i < s.len() ==> digit_of(#[trigger] s[i], radix) is Some) && value_of(s, radix)
            <= max,
        number_of(s, radix, max) matches Some(v) ==> v == value_of(s, radix),
{
    assert(s.push(c).drop_last() =~= s);
}

/// A number is written with the digits `0` to `9` and `a` to `f`, without a zero in front unless it
/// is zero.
pub proof fn law_numerals_are_plain(n: nat, radix: nat)
    requires
        2 <= radix <= 16,
    ensures
        forall|i: int|
            0 <= i < numeral(n, radix).len() ==> ('0' <= #[trigger] numeral(n, radix)[i] <= '9'
                || 'a' <= numeral(n, radix)[i] <= 'f'),
        numeral(n, radix)[0] == '0' <==> n == 0,
        decimal(n) == numeral(n, 10),
    decreases n,
{
    let s = numeral(n, radix);
    if n >= radix {
        assert(n / radix < n && n / radix >= 1) by (nonlinear_arith)
            requires
                n >= radix,
                radix >= 2,
        ;
        assert(0 <= n % radix < radix) by (nonlinear_arith)
            requires
                radix >= 2,
        ;
        law_numerals_are_plain(n / radix, radix);
        law_numeral_reads_back(n / radix, radix);
        let front = numeral(n / radix, radix);
        assert forall|i: int| 0 <= i < s.len() implies ('0' <= #[trigger] s[i] <= '9' || 'a' <= s[i]
            <= 'f') by {
            assert(i < front.len() ==> s[i] == front[i]);
        }
        assert(s[0] == front[0]);
    }
}

/// Joining keeps the texts in order and puts the separator between two neighbours only.
pub proof fn law_joining(a: Seq<Seq<char>>, b: Seq<Seq<char>>, p: Seq<char>, sep: Seq<char>)
    ensures
        joined(Seq::<Seq<char>>::empty(), sep).len() == 0,
        joined(seq![p], sep) == p,
        a.len() > 0 && b.len() > 0 ==> joined(a + b, sep) == joined(a, sep) + sep + joined(b, sep),
    decreases b.len(),
{
    if a.len() > 0 && b.len() > 0 {
        assert((a + b).drop_last() =~= a + b.drop_last());
        if b.len() == 1 {
            assert(a + b.drop_last() =~= a);
            assert(joined(a + b, sep) =~= joined(a, sep) + sep + joined(b, sep));
        } else {
            law_joining(a, b.drop_last(), p, sep);
            assert(joined(a + b, sep) =~= joined(a, sep) + sep + joined(b, sep));
        }
    }
}

/// Results and lists of texts are taken as they are, each text by its characters.
pub proof fn law_texts_are_taken_as_they_are<T>(parts: Seq<String>, r: Result<T, String>)
    ensures
        texts(parts).len() == parts.len(),
        forall|i: int| 0 <= i < parts.len() ==> #[trigger] texts(parts)[i] == parts[i]@,
        r matches Ok(v) ==> shown(r) == Ok::<T, Seq<char>>(v),
        r matches Err(e) ==> shown(r) == Err::<T, Seq<char>>(e@),
        truth(true) == "true"@,
        truth(false) == "false"@,
{
}

/// Lowering ASCII letters makes each capital its small letter and changes nothing else.
pub proof fn law_ascii_lowering(s: Seq<char>)
    ensures
        ascii_lowered(s).len() == s.len(),
        forall|i: int|
            0 <= i < s.len() ==> #[trigger] ascii_lowered(s)[i] as u32 == if 65 <= s[i] as u32 <= 90 {
                s[i] as u32 + 32
            } else {
                s[i] as int
            },
{
}

/// White space is the control characters from the tab to the carriage return, the next line, and
/// the spaces and separators of Unicode: these 25 characters and no others.
pub proof fn law_white_space_characters(c: char)
    ensures
        whitespace(c) <==> set![
            9u32, 10, 11, 12, 13, 32, 133, 160, 5760, 8192, 8193, 8194, 8195, 8196, 8197, 8198, 8199, 8200, 8201, 8202, 8232, 8233, 8239, 8287, 12288,
        ].contains(c as u32),
{
}

} // verus!
