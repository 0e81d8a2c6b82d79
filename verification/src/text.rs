//! Character-level rules shared by the parsers and validators.

use vstd::prelude::*;

verus! {

/// `char::is_whitespace`: the Unicode `White_Space` property.
pub open spec fn is_whitespace(c: char) -> bool {
    ||| c == ' '
    ||| ('\x09' <= c && c <= '\x0d')
    ||| c == '\u{85}'
    ||| c == '\u{a0}'
    ||| c == '\u{1680}'
    ||| ('\u{2000}' <= c && c <= '\u{200a}')
    ||| c == '\u{2028}'
    ||| c == '\u{2029}'
    ||| c == '\u{202f}'
    ||| c == '\u{205f}'
    ||| c == '\u{3000}'
}

/// `str::trim(s).is_empty()`: every character is whitespace.
pub open spec fn is_blank(s: Seq<char>) -> bool {
    forall|i: int| 0 <= i < s.len() ==> #[trigger] is_whitespace(s[i])
}

/// `str::trim(s) != s`: the text starts or ends with whitespace.
pub open spec fn has_edge_whitespace(s: Seq<char>) -> bool {
    s.len() > 0 && (is_whitespace(s[0]) || is_whitespace(s[s.len() - 1]))
}

pub fn char_is_whitespace(c: char) -> (r: bool)
    ensures
        r == is_whitespace(c),
{
    c == ' ' || ('\x09' <= c && c <= '\x0d') || c == '\u{85}' || c == '\u{a0}' || c == '\u{1680}'
        || ('\u{2000}' <= c && c <= '\u{200a}') || c == '\u{2028}' || c == '\u{2029}'
        || c == '\u{202f}' || c == '\u{205f}' || c == '\u{3000}'
}

/// Whether `s` holds nothing but whitespace (the empty text included).
pub fn is_blank_text(s: &str) -> (r: bool)
    ensures
        r == is_blank(s@),
{
    let n = s.unicode_len();
    let mut i: usize = 0;
    while i < n
        invariant
            n == s@.len(),
            i <= n,
            forall|j: int| 0 <= j < i ==> #[trigger] is_whitespace(s@[j]),
        decreases n - i,
    {
        if !char_is_whitespace(s.get_char(i)) {
            return false;
        }
        i = i + 1;
    }
    true
}

} // verus!

verus! {

// ---------------------------------------------------------------------------
// Searching and comparing text
// ---------------------------------------------------------------------------

/// `i` is the position of the first `c` in `s`.
pub open spec fn is_first(s: Seq<char>, c: char, i: int) -> bool {
    &&& 0 <= i < s.len()
    &&& s[i] == c
    &&& forall|j: int| 0 <= j < i ==> s[j] != c
}

/// Position of the first `c` in `s` (meaningful when `s` contains `c`).
pub open spec fn first_index(s: Seq<char>, c: char) -> int {
    choose|i: int| is_first(s, c, i)
}

/// `i` is the position of the last `c` in `s`.
pub open spec fn is_last(s: Seq<char>, c: char, i: int) -> bool {
    &&& 0 <= i < s.len()
    &&& s[i] == c
    &&& forall|j: int| i < j < s.len() ==> s[j] != c
}

/// Position of the last `c` in `s` (meaningful when `s` contains `c`).
pub open spec fn last_index(s: Seq<char>, c: char) -> int {
    choose|i: int| is_last(s, c, i)
}

pub proof fn lemma_first_index(s: Seq<char>, c: char, i: int)
    requires
        is_first(s, c, i),
    ensures
        first_index(s, c) == i,
        s.contains(c),
{
    let k = first_index(s, c);
    assert(is_first(s, c, k));
    if k < i {
        assert(s[k] != c);
    }
    if i < k {
        assert(s[i] != c);
    }
}

pub proof fn lemma_last_index(s: Seq<char>, c: char, i: int)
    requires
        is_last(s, c, i),
    ensures
        last_index(s, c) == i,
        s.contains(c),
{
    let k = last_index(s, c);
    assert(is_last(s, c, k));
    if k < i {
        assert(s[i] != c);
    }
    if i < k {
        assert(s[k] != c);
    }
}

/// `str::find(c)`: the position (in characters) of the first `c`.
pub fn find_char(s: &str, c: char) -> (r: Option<usize>)
    ensures
        match r {
            Some(i) => is_first(s@, c, i as int) && first_index(s@, c) == i,
            None => !s@.contains(c),
        },
{
    let n = s.unicode_len();
    let mut i: usize = 0;
    while i < n
        invariant
            n == s@.len(),
            i <= n,
            forall|j: int| 0 <= j < i ==> s@[j] != c,
        decreases n - i,
    {
        if s.get_char(i) == c {
            proof {
                lemma_first_index(s@, c, i as int);
            }
            return Some(i);
        }
        i = i + 1;
    }
    None
}

/// `str::rfind(c)`: the position (in characters) of the last `c`.
pub fn find_last_char(s: &str, c: char) -> (r: Option<usize>)
    ensures
        match r {
            Some(i) => is_last(s@, c, i as int) && last_index(s@, c) == i,
            None => !s@.contains(c),
        },
{
    let n = s.unicode_len();
    let mut i: usize = n;
    while i > 0
        invariant
            n == s@.len(),
            i <= n,
            forall|j: int| i <= j < n ==> s@[j] != c,
        decreases i,
    {
        if s.get_char(i - 1) == c {
            proof {
                lemma_last_index(s@, c, i - 1);
            }
            return Some(i - 1);
        }
        i = i - 1;
    }
    None
}

/// Character-by-character equality of two texts.
pub fn same_text(a: &str, b: &str) -> (r: bool)
    ensures
        r == (a@ == b@),
{
    let n = a.unicode_len();
    if n != b.unicode_len() {
        return false;
    }
    let mut i: usize = 0;
    while i < n
        invariant
            n == a@.len(),
            n == b@.len(),
            i <= n,
            forall|j: int| 0 <= j < i ==> a@[j] == b@[j],
        decreases n - i,
    {
        if a.get_char(i) != b.get_char(i) {
            return false;
        }
        i = i + 1;
    }
    assert(a@ =~= b@);
    true
}

/// Whether `c` occurs in `s`.
pub fn contains_char(s: &str, c: char) -> (r: bool)
    ensures
        r == s@.contains(c),
{
    match find_char(s, c) {
        Some(_) => true,
        None => false,
    }
}

// ---------------------------------------------------------------------------
// Decimal numbers
// ---------------------------------------------------------------------------

pub open spec fn is_ascii_digit(c: char) -> bool {
    '0' <= c && c <= '9'
}

pub open spec fn is_ascii_alphanumeric(c: char) -> bool {
    ||| ('0' <= c && c <= '9')
    ||| ('a' <= c && c <= 'z')
    ||| ('A' <= c && c <= 'Z')
}

pub open spec fn digit_value(c: char) -> int {
    (c as int) - ('0' as int)
}

/// The character for a decimal digit.
pub open spec fn digit_char(d: nat) -> char {
    if d == 0 {
        '0'
    } else if d == 1 {
        '1'
    } else if d == 2 {
        '2'
    } else if d == 3 {
        '3'
    } else if d == 4 {
        '4'
    } else if d == 5 {
        '5'
    } else if d == 6 {
        '6'
    } else if d == 7 {
        '7'
    } else if d == 8 {
        '8'
    } else {
        '9'
    }
}

/// How `u64`'s `Display` writes `n`: its decimal digits, without leading zeros.
pub open spec fn decimal(n: nat) -> Seq<char>
    decreases n,
{
    if n < 10 {
        seq![digit_char(n)]
    } else {
        decimal(n / 10).push(digit_char(n % 10))
    }
}

/// The number that a string of decimal digits denotes.
pub open spec fn decimal_value(s: Seq<char>) -> int
    decreases s.len(),
{
    if s.len() == 0 {
        0
    } else {
        decimal_value(s.drop_last()) * 10 + digit_value(s.last())
    }
}

pub open spec fn all_digits(s: Seq<char>) -> bool {
    forall|i: int| 0 <= i < s.len() ==> #[trigger] is_ascii_digit(s[i])
}

/// `<u64 as FromStr>::from_str`: an optional `+`, then at least one decimal
/// digit, denoting a value that fits in `u64`.
pub open spec fn parse_u64_spec(s: Seq<char>) -> Option<u64> {
    if s.len() == 0 {
        None
    } else {
        let digits = if s[0] == '+' {
            s.drop_first()
        } else {
            s
        };
        if digits.len() > 0 && all_digits(digits) && decimal_value(digits) <= u64::MAX {
            Some(decimal_value(digits) as u64)
        } else {
            None
        }
    }
}

pub proof fn lemma_digit_char(d: nat)
    requires
        d < 10,
    ensures
        is_ascii_digit(digit_char(d)),
        digit_value(digit_char(d)) == d,
{
}

pub proof fn lemma_decimal_value_nonneg(s: Seq<char>)
    requires
        all_digits(s),
    ensures
        decimal_value(s) >= 0,
    decreases s.len(),
{
    if s.len() > 0 {
        assert(is_ascii_digit(s[s.len() - 1]));
        assert(all_digits(s.drop_last())) by {
            assert forall|i: int| 0 <= i < s.drop_last().len() implies #[trigger] is_ascii_digit(
                s.drop_last()[i],
            ) by {
                assert(is_ascii_digit(s[i]));
            }
        }
        lemma_decimal_value_nonneg(s.drop_last());
    }
}

/// A prefix of a digit string never denotes more than the whole string.
pub proof fn lemma_decimal_value_prefix(s: Seq<char>, k: int)
    requires
        all_digits(s),
        0 <= k <= s.len(),
    ensures
        decimal_value(s.take(k)) <= decimal_value(s),
    decreases s.len() - k,
{
    if k < s.len() {
        lemma_decimal_value_prefix(s, k + 1);
        assert(s.take(k + 1).drop_last() =~= s.take(k));
        assert(is_ascii_digit(s[k]));
        assert(all_digits(s.take(k))) by {
            assert forall|i: int| 0 <= i < s.take(k).len() implies #[trigger] is_ascii_digit(
                s.take(k)[i],
            ) by {
                assert(is_ascii_digit(s[i]));
            }
        }
        lemma_decimal_value_nonneg(s.take(k));
    } else {
        assert(s.take(k) =~= s);
    }
}

/// The digits of `decimal(n)` denote `n`.
pub proof fn lemma_decimal_roundtrip(n: nat)
    ensures
        decimal(n).len() > 0,
        all_digits(decimal(n)),
        decimal_value(decimal(n)) == n,
    decreases n,
{
    if n < 10 {
        lemma_digit_char(n);
        assert(decimal(n).drop_last() =~= Seq::<char>::empty());
        assert(decimal_value(Seq::<char>::empty()) == 0);
        assert(decimal(n).last() == digit_char(n));
    } else {
        lemma_decimal_roundtrip(n / 10);
        lemma_digit_char(n % 10);
        let s = decimal(n);
        assert(s.drop_last() =~= decimal(n / 10));
        assert(s.last() == digit_char(n % 10));
        assert(decimal_value(s) == decimal_value(decimal(n / 10)) * 10 + digit_value(
            digit_char(n % 10),
        ));
        assert forall|i: int| 0 <= i < s.len() implies #[trigger] is_ascii_digit(s[i]) by {
            if i < s.len() - 1 {
                assert(s[i] == decimal(n / 10)[i]);
            }
        }
    }
}

/// Parsing the decimal form of a `u64` gives the number back.
pub proof fn lemma_parse_decimal(n: u64)
    ensures
        parse_u64_spec(decimal(n as nat)) == Some(n),
{
    lemma_decimal_roundtrip(n as nat);
    let s = decimal(n as nat);
    assert(is_ascii_digit(s[0]));
}

/// The text for one decimal digit.
pub fn digit_text(d: u64) -> (r: &'static str)
    requires
        d < 10,
    ensures
        r@ == seq![digit_char(d as nat)],
{
    match d {
        0 => {
            proof {
                reveal_strlit("0");
            }
            "0"
        },
        1 => {
            proof {
                reveal_strlit("1");
            }
            "1"
        },
        2 => {
            proof {
                reveal_strlit("2");
            }
            "2"
        },
        3 => {
            proof {
                reveal_strlit("3");
            }
            "3"
        },
        4 => {
            proof {
                reveal_strlit("4");
            }
            "4"
        },
        5 => {
            proof {
                reveal_strlit("5");
            }
            "5"
        },
        6 => {
            proof {
                reveal_strlit("6");
            }
            "6"
        },
        7 => {
            proof {
                reveal_strlit("7");
            }
            "7"
        },
        8 => {
            proof {
                reveal_strlit("8");
            }
            "8"
        },
        _ => {
            proof {
                reveal_strlit("9");
            }
            "9"
        },
    }
}

/// Appends the decimal form of `n` to `out`.
pub fn push_decimal(out: &mut String, n: u64)
    ensures
        final(out)@ == old(out)@ + decimal(n as nat),
    decreases n,
{
    if n >= 10 {
        push_decimal(out, n / 10);
    }
    out.append(digit_text(n % 10));
    assert(final(out)@ =~= old(out)@ + decimal(n as nat));
}

/// The decimal form of `n`, as `n.to_string()` writes it.
pub fn decimal_text(n: u64) -> (r: String)
    ensures
        r@ == decimal(n as nat),
{
    let mut out = String::new();
    push_decimal(&mut out, n);
    assert(out@ =~= decimal(n as nat));
    out
}

/// `s.parse::<u64>().ok()`.
pub fn parse_u64(s: &str) -> (r: Option<u64>)
    ensures
        r == parse_u64_spec(s@),
{
    let n = s.unicode_len();
    if n == 0 {
        return None;
    }
    let start: usize = if s.get_char(0) == '+' {
        1
    } else {
        0
    };
    let ghost digits = if s@[0] == '+' {
        s@.drop_first()
    } else {
        s@
    };
    assert(digits =~= s@.subrange(start as int, n as int));
    if start == n {
        return None;
    }
    let mut i: usize = start;
    let mut acc: u64 = 0;
    while i < n
        invariant
            n == s@.len(),
            n > 0,
            start <= i <= n,
            digits == (if s@[0] == '+' {
                s@.drop_first()
            } else {
                s@
            }),
            digits =~= s@.subrange(start as int, n as int),
            all_digits(digits.take(i - start)),
            acc as int == decimal_value(digits.take(i - start)),
        decreases n - i,
    {
        let c = s.get_char(i);
        if !('0' <= c && c <= '9') {
            assert(digits[i - start] == c);
            assert(!is_ascii_digit(digits[i - start]));
            assert(!all_digits(digits));
            return None;
        }
        let ghost next = digits.take(i - start + 1);
        assert(next.drop_last() =~= digits.take(i - start));
        assert(next.last() == c);
        assert(all_digits(next)) by {
            assert forall|j: int| 0 <= j < next.len() implies #[trigger] is_ascii_digit(next[j]) by {
                if j < next.len() - 1 {
                    assert(next[j] == digits.take(i - start)[j]);
                }
            }
        }
        let d: u64 = (c as u32 - '0' as u32) as u64;
        let step = match acc.checked_mul(10) {
            Some(m) => m.checked_add(d),
            None => None,
        };
        match step {
            Some(v) => {
                acc = v;
            },
            None => {
                proof {
                    if all_digits(digits) {
                        lemma_decimal_value_prefix(digits, i - start + 1);
                    }
                }
                return None;
            },
        }
        i = i + 1;
    }
    assert(digits.take(n - start) =~= digits);
    Some(acc)
}

} // verus!

verus! {

// ---------------------------------------------------------------------------
// Lines
// ---------------------------------------------------------------------------

/// Drops one trailing carriage return.
pub open spec fn strip_cr(l: Seq<char>) -> Seq<char> {
    if l.len() > 0 && l.last() == '\r' {
        l.drop_last()
    } else {
        l
    }
}

/// Left-to-right scan of `s`: the lines ended by a line feed so far, and
/// the characters read since the last line feed.
pub open spec fn scan_lines(s: Seq<char>) -> (Seq<Seq<char>>, Seq<char>)
    decreases s.len(),
{
    if s.len() == 0 {
        (Seq::empty(), Seq::empty())
    } else {
        let (done, cur) = scan_lines(s.drop_last());
        if s.last() == '\n' {
            (done.push(strip_cr(cur)), Seq::empty())
        } else {
            (done, cur.push(s.last()))
        }
    }
}

/// `str::lines`: split at `\n` or `\r\n`; a final line ending is optional
/// and an empty text has no lines.
pub open spec fn lines(s: Seq<char>) -> Seq<Seq<char>> {
    let (done, cur) = scan_lines(s);
    if cur.len() > 0 {
        done.push(cur)
    } else {
        done
    }
}

pub open spec fn strings_view(v: Seq<String>) -> Seq<Seq<char>> {
    v.map_values(|l: String| l@)
}

/// The lines of `s`, as `s.lines()` yields them.
pub fn text_lines(s: &str) -> (r: Vec<String>)
    ensures
        strings_view(r@) == lines(s@),
{
    let n = s.unicode_len();
    let mut out: Vec<String> = Vec::new();
    let mut start: usize = 0;
    let mut i: usize = 0;
    assert(s@.take(0) =~= Seq::<char>::empty());
    assert(strings_view(out@) =~= Seq::<Seq<char>>::empty());
    while i < n
        invariant
            n == s@.len(),
            start <= i <= n,
            scan_lines(s@.take(i as int)).0 == strings_view(out@),
            scan_lines(s@.take(i as int)).1 == s@.subrange(start as int, i as int),
        decreases n - i,
    {
        let c = s.get_char(i);
        let ghost prev = s@.take(i as int);
        let ghost cur = s@.subrange(start as int, i as int);
        assert(s@.take(i + 1).drop_last() =~= prev);
        assert(s@.take(i + 1).last() == c);
        if c == '\n' {
            let end: usize = if i > start && s.get_char(i - 1) == '\r' {
                i - 1
            } else {
                i
            };
            assert(strip_cr(cur) =~= s@.subrange(start as int, end as int));
            let line = String::from_str(s.substring_char(start, end));
            let ghost before = out@;
            out.push(line);
            assert(strings_view(out@) =~= strings_view(before).push(line@));
            start = i + 1;
            assert(s@.subrange(start as int, i + 1) =~= Seq::<char>::empty());
        } else {
            assert(s@.subrange(start as int, i + 1) =~= cur.push(c));
        }
        i = i + 1;
    }
    assert(s@.take(n as int) =~= s@);
    if start < n {
        let line = String::from_str(s.substring_char(start, n));
        let ghost before = out@;
        out.push(line);
        assert(strings_view(out@) =~= strings_view(before).push(line@));
    }
    out
}

/// `s.lines().count()`.
pub fn line_count(s: &str) -> (r: usize)
    ensures
        r == lines(s@).len(),
{
    let v = text_lines(s);
    assert(strings_view(v@).len() == v@.len());
    v.len()
}

} // verus!

verus! {

/// Lines joined with `\n` between them.
pub open spec fn join_lines(ls: Seq<Seq<char>>) -> Seq<char>
    decreases ls.len(),
{
    if ls.len() == 0 {
        Seq::empty()
    } else if ls.len() == 1 {
        ls[0]
    } else {
        join_lines(ls.drop_last()) + seq!['\n'] + ls.last()
    }
}

/// Lines each followed by `\n`.
pub open spec fn terminated_lines(ls: Seq<Seq<char>>) -> Seq<char>
    decreases ls.len(),
{
    if ls.len() == 0 {
        Seq::empty()
    } else {
        terminated_lines(ls.drop_last()) + ls.last() + seq!['\n']
    }
}

proof fn lemma_terminated_is_joined(ls: Seq<Seq<char>>)
    ensures
        ls.len() > 0 ==> terminated_lines(ls) == join_lines(ls) + seq!['\n'],
    decreases ls.len(),
{
    if ls.len() > 1 {
        lemma_terminated_is_joined(ls.drop_last());
        assert(terminated_lines(ls) =~= join_lines(ls) + seq!['\n']);
    } else if ls.len() == 1 {
        assert(ls.drop_last() =~= Seq::<Seq<char>>::empty());
        assert(terminated_lines(ls.drop_last()) == Seq::<char>::empty());
        assert(ls.last() == ls[0]);
        assert(terminated_lines(ls) =~= join_lines(ls) + seq!['\n']);
    }
}

/// Scanning a text without `\r` loses nothing: the text is the lines ended
/// so far, each followed by its `\n`, then the open line; no line holds `\n`.
proof fn lemma_scan_lines_keeps_text(s: Seq<char>)
    requires
        forall|i: int| 0 <= i < s.len() ==> #[trigger] s[i] != '\r',
    ensures
        s == terminated_lines(scan_lines(s).0) + scan_lines(s).1,
        forall|i: int| 0 <= i < scan_lines(s).1.len() ==> #[trigger] scan_lines(s).1[i] != '\n',
    decreases s.len(),
{
    if s.len() > 0 {
        let t = s.drop_last();
        assert forall|i: int| 0 <= i < t.len() implies #[trigger] t[i] != '\r' by {
            assert(t[i] == s[i]);
        }
        lemma_scan_lines_keeps_text(t);
        let (done, cur) = scan_lines(t);
        if s.last() == '\n' {
            assert(cur.len() == 0 || cur.last() != '\r') by {
                if cur.len() > 0 {
                    let k = t.len() - 1;
                    assert(t =~= terminated_lines(done) + cur);
                    assert(t[k] == cur.last());
                }
            }
            assert(strip_cr(cur) == cur);
            assert(terminated_lines(done.push(cur)) == terminated_lines(done) + cur + seq!['\n']) by {
                assert(done.push(cur).drop_last() =~= done);
            }
            assert(s =~= t + seq!['\n']);
        } else {
            assert(s =~= t + seq![s.last()]);
        }
    }
}

/// Joining the lines of a text without `\r` with `\n` gives the text back,
/// less one final line feed: each line is exactly the characters between two
/// line feeds, with nothing dropped or added, and no line holds a `\n`.
pub proof fn lemma_lines_join_back(s: Seq<char>)
    requires
        forall|i: int| 0 <= i < s.len() ==> #[trigger] s[i] != '\r',
    ensures
        join_lines(lines(s)) == (if s.len() > 0 && s.last() == '\n' {
            s.drop_last()
        } else {
            s
        }),
{
    lemma_scan_lines_keeps_text(s);
    let (done, cur) = scan_lines(s);
    lemma_terminated_is_joined(done);
    if cur.len() > 0 {
        let ls = done.push(cur);
        assert(ls.drop_last() =~= done);
        if done.len() == 0 {
            assert(terminated_lines(done) =~= Seq::<char>::empty());
            assert(s =~= cur);
        } else {
            assert(join_lines(ls) == join_lines(done) + seq!['\n'] + cur);
            assert(s =~= join_lines(done) + seq!['\n'] + cur);
        }
        assert(s.last() == cur.last());
    } else {
        if done.len() == 0 {
            assert(s =~= Seq::<char>::empty());
        } else {
            assert(s =~= join_lines(done) + seq!['\n']);
            assert(s.drop_last() =~= join_lines(done));
        }
    }
}

} // verus!

verus! {

/// The text with each `\n` written as `\r\n`.
pub open spec fn crlf(s: Seq<char>) -> Seq<char>
    decreases s.len(),
{
    if s.len() == 0 {
        Seq::empty()
    } else if s.last() == '\n' {
        crlf(s.drop_last()) + seq!['\r', '\n']
    } else {
        crlf(s.drop_last()).push(s.last())
    }
}

proof fn lemma_scan_crlf(s: Seq<char>)
    requires
        forall|i: int| 0 <= i < s.len() ==> #[trigger] s[i] != '\r',
    ensures
        scan_lines(crlf(s)) == scan_lines(s),
    decreases s.len(),
{
    if s.len() > 0 {
        let t = s.drop_last();
        assert forall|i: int| 0 <= i < t.len() implies #[trigger] t[i] != '\r' by {
            assert(t[i] == s[i]);
        }
        lemma_scan_crlf(t);
        lemma_scan_lines_keeps_text(t);
        let (done, cur) = scan_lines(t);
        if s.last() == '\n' {
            let a = crlf(t) + seq!['\r'];
            let b = a + seq!['\n'];
            assert(crlf(s) == b);
            assert(b.drop_last() =~= a);
            assert(a.drop_last() =~= crlf(t));
            assert(scan_lines(a) == (done, cur.push('\r')));
            assert(cur.push('\r').drop_last() =~= cur);
            assert(cur.len() == 0 || cur.last() != '\r') by {
                if cur.len() > 0 {
                    assert(t =~= terminated_lines(done) + cur);
                    assert(t[t.len() - 1] == cur.last());
                }
            }
        } else {
            assert(crlf(s).drop_last() =~= crlf(t));
        }
    }
}

/// A `\r\n` line ending is read as `\n`: writing every line feed of a text
/// without `\r` as `\r\n` leaves its lines as they were.
pub proof fn lemma_lines_read_crlf_as_lf(s: Seq<char>)
    requires
        forall|i: int| 0 <= i < s.len() ==> #[trigger] s[i] != '\r',
    ensures
        lines(crlf(s)) == lines(s),
{
    lemma_scan_crlf(s);
}

} // verus!
