//! Character-level text utilities: trimming, prefix tests, searching and
//! integer parsing over `Seq<char>` views of `&str`.

use vstd::prelude::*;

verus! {

/// The whitespace characters this library's trimming recognizes.
pub open spec fn is_space(c: char) -> bool {
    c == ' ' || c == '\t' || c == '\r' || c == '\n'
}

/// The first index at or after `k` holding a non-space character, or the
/// length if none exists.
pub open spec fn skip_spaces_from(s: Seq<char>, k: int) -> int
    decreases s.len() - k when 0 <= k <= s.len()
{
    if k >= s.len() {
        k
    } else if is_space(s[k]) {
        skip_spaces_from(s, k + 1)
    } else {
        k
    }
}

/// The index just past the last non-space character strictly before `k`, or 0
/// if all of them are spaces.
pub open spec fn rskip_spaces_to(s: Seq<char>, k: int) -> int
    decreases k when 0 <= k <= s.len()
{
    if k <= 0 {
        0
    } else if is_space(s[k - 1]) {
        rskip_spaces_to(s, k - 1)
    } else {
        k
    }
}

/// `s` with leading and trailing whitespace removed.
pub open spec fn spec_trim(s: Seq<char>) -> Seq<char> {
    let a = skip_spaces_from(s, 0);
    let b = rskip_spaces_to(s, s.len() as int);
    if a <= b {
        s.subrange(a, b)
    } else {
        Seq::empty()
    }
}

pub fn is_space_char(c: char) -> (r: bool)
    ensures
        r == is_space(c),
{
    c == ' ' || c == '\t' || c == '\r' || c == '\n'
}

/// `s` with leading and trailing whitespace removed.
pub fn trim_str<'a>(s: &'a str) -> (r: &'a str)
    ensures
        r@ == spec_trim(s@),
{
    let len = s.unicode_len();
    let mut a: usize = 0;
    while a < len && is_space_char(s.get_char(a))
        invariant
            0 <= a <= len,
            len == s@.len(),
            skip_spaces_from(s@, 0) == skip_spaces_from(s@, a as int),
        decreases len - a,
    {
        a = a + 1;
    }
    assert(a == skip_spaces_from(s@, 0));
    let mut b: usize = len;
    while b > 0 && is_space_char(s.get_char(b - 1))
        invariant
            0 <= b <= len,
            len == s@.len(),
            rskip_spaces_to(s@, len as int) == rskip_spaces_to(s@, b as int),
        decreases b,
    {
        b = b - 1;
    }
    assert(b == rskip_spaces_to(s@, len as int));
    if a <= b {
        s.substring_char(a, b)
    } else {
        let r = "";
        proof {
            reveal_strlit("");
            assert(r@ =~= spec_trim(s@));
        }
        r
    }
}

/// `p` occurs at the front of `s`.
pub open spec fn starts_with(s: Seq<char>, p: Seq<char>) -> bool {
    p.len() <= s.len() && (forall|j: int| 0 <= j < p.len() ==> s[j] == p[j])
}

pub fn str_starts_with(s: &str, p: &str) -> (r: bool)
    ensures
        r == starts_with(s@, p@),
{
    let slen = s.unicode_len();
    let plen = p.unicode_len();
    if plen > slen {
        return false;
    }
    let mut j: usize = 0;
    while j < plen
        invariant
            0 <= j <= plen,
            plen == p@.len(),
            slen == s@.len(),
            plen <= slen,
            forall|i: int| 0 <= i < j ==> s@[i] == p@[i],
        decreases plen - j,
    {
        if s.get_char(j) != p.get_char(j) {
            return false;
        }
        j = j + 1;
    }
    true
}

/// The first index at or after `k` holding the character `c`.
pub open spec fn find_char_from(s: Seq<char>, c: char, k: int) -> Option<int>
    decreases s.len() - k when 0 <= k <= s.len()
{
    if k >= s.len() {
        None
    } else if s[k] == c {
        Some(k)
    } else {
        find_char_from(s, c, k + 1)
    }
}

/// The first occurrence of the character `c` in `s`, if any.
pub fn str_find_char(s: &str, c: char) -> (r: Option<usize>)
    ensures
        match r {
            Some(i) => find_char_from(s@, c, 0) == Some(i as int) && i < s@.len(),
            None => find_char_from(s@, c, 0) is None,
        },
{
    let len = s.unicode_len();
    let mut k: usize = 0;
    while k < len
        invariant
            0 <= k <= len,
            len == s@.len(),
            find_char_from(s@, c, 0) == find_char_from(s@, c, k as int),
        decreases len - k,
    {
        if s.get_char(k) == c {
            return Some(k);
        }
        k = k + 1;
    }
    None
}

/// `p` occurs in `s` starting at index `k`.
pub open spec fn match_at(s: Seq<char>, p: Seq<char>, k: int) -> bool {
    0 <= k && k + p.len() <= s.len() && (forall|j: int| 0 <= j < p.len() ==> s[k + j] == p[j])
}

/// The first index at or after `k` where `p` occurs in `s`.
pub open spec fn find_sub_from(s: Seq<char>, p: Seq<char>, k: int) -> Option<int>
    decreases s.len() - k when 0 <= k
{
    if k + p.len() > s.len() {
        None
    } else if match_at(s, p, k) {
        Some(k)
    } else {
        find_sub_from(s, p, k + 1)
    }
}

/// The last index at or before `k` where `p` occurs in `s`.
pub open spec fn rfind_sub_to(s: Seq<char>, p: Seq<char>, k: int) -> Option<int>
    decreases k + 1 when k + 1 >= 0
{
    if k < 0 {
        None
    } else if match_at(s, p, k) {
        Some(k)
    } else {
        rfind_sub_to(s, p, k - 1)
    }
}

/// The last index at which `p` occurs in `s`.
pub open spec fn rfind_sub(s: Seq<char>, p: Seq<char>) -> Option<int> {
    if p.len() > s.len() {
        None
    } else {
        rfind_sub_to(s, p, s.len() - p.len())
    }
}

fn str_match_at(s: &str, p: &str, k: usize) -> (r: bool)
    requires
        k + p@.len() <= s@.len(),
    ensures
        r == match_at(s@, p@, k as int),
{
    let slen = s.unicode_len();
    let plen = p.unicode_len();
    let mut j: usize = 0;
    while j < plen
        invariant
            0 <= j <= plen,
            plen == p@.len(),
            slen == s@.len(),
            k + plen <= s@.len(),
            forall|i: int| 0 <= i < j ==> s@[k + i] == p@[i],
        decreases plen - j,
    {
        if s.get_char(k + j) != p.get_char(j) {
            return false;
        }
        j = j + 1;
    }
    true
}

/// The first occurrence of `p` in `s`, if any.
pub fn str_find_sub(s: &str, p: &str) -> (r: Option<usize>)
    ensures
        match r {
            Some(i) => find_sub_from(s@, p@, 0) == Some(i as int) && i + p@.len() <= s@.len(),
            None => find_sub_from(s@, p@, 0) is None,
        },
{
    let slen = s.unicode_len();
    let plen = p.unicode_len();
    if plen > slen {
        return None;
    }
    let mut k: usize = 0;
    while k <= slen - plen
        invariant
            0 <= k <= slen - plen + 1,
            plen <= slen,
            slen == s@.len(),
            plen == p@.len(),
            find_sub_from(s@, p@, 0) == find_sub_from(s@, p@, k as int),
        decreases slen - k,
    {
        if str_match_at(s, p, k) {
            return Some(k);
        }
        k = k + 1;
    }
    None
}

/// The last occurrence of `p` in `s`, if any.
pub fn str_rfind_sub(s: &str, p: &str) -> (r: Option<usize>)
    ensures
        match r {
            Some(i) => rfind_sub(s@, p@) == Some(i as int) && i + p@.len() <= s@.len(),
            None => rfind_sub(s@, p@) is None,
        },
{
    let slen = s.unicode_len();
    let plen = p.unicode_len();
    if plen > slen {
        return None;
    }
    let mut k: usize = slen - plen;
    loop
        invariant
            0 <= k <= slen - plen,
            slen == s@.len(),
            plen == p@.len(),
            plen <= slen,
            rfind_sub_to(s@, p@, s@.len() - p@.len()) == rfind_sub_to(s@, p@, k as int),
        decreases k,
    {
        if str_match_at(s, p, k) {
            return Some(k);
        }
        if k == 0 {
            proof {
                assert(rfind_sub_to(s@, p@, -1) is None);
                assert(rfind_sub_to(s@, p@, 0) is None);
            }
            return None;
        }
        k = k - 1;
    }
}

/// `p` occurs somewhere in `s`.
pub open spec fn contains_sub(s: Seq<char>, p: Seq<char>) -> bool {
    exists|k: int| match_at(s, p, k)
}

proof fn lemma_find_sub_sound(s: Seq<char>, p: Seq<char>, k: int, i: int)
    requires
        0 <= k,
        find_sub_from(s, p, k) == Some(i),
    ensures
        match_at(s, p, i),
    decreases s.len() - k,
{
    if k + p.len() <= s.len() && !match_at(s, p, k) {
        lemma_find_sub_sound(s, p, k + 1, i);
    }
}

proof fn lemma_find_sub_complete(s: Seq<char>, p: Seq<char>, k: int)
    requires
        0 <= k,
        find_sub_from(s, p, k) is None,
    ensures
        forall|i: int| i >= k ==> !match_at(s, p, i),
    decreases s.len() - k,
{
    if k + p.len() <= s.len() {
        lemma_find_sub_complete(s, p, k + 1);
    }
}

/// `p` occurs somewhere in `s`.
pub fn str_contains(s: &str, p: &str) -> (r: bool)
    ensures
        r == contains_sub(s@, p@),
{
    match str_find_sub(s, p) {
        Some(i) => {
            proof {
                lemma_find_sub_sound(s@, p@, 0, i as int);
            }
            true
        },
        None => {
            proof {
                lemma_find_sub_complete(s@, p@, 0);
                assert(forall|k: int| match_at(s@, p@, k) ==> k >= 0);
            }
            false
        },
    }
}

/// A decimal digit.
pub open spec fn is_digit(c: char) -> bool {
    '0' <= c && c <= '9'
}

/// The numeric value of a decimal digit.
pub open spec fn digit_val(c: char) -> int {
    c as int - '0' as int
}

pub open spec fn all_digits(s: Seq<char>) -> bool {
    forall|i: int| 0 <= i < s.len() ==> is_digit(#[trigger] s[i])
}

/// The value of a run of decimal digits, most significant first.
pub open spec fn digits_val(s: Seq<char>) -> int
    decreases s.len(),
{
    if s.len() == 0 {
        0
    } else {
        digits_val(s.drop_last()) * 10 + digit_val(s.last())
    }
}

/// The value of `s` read as an optionally signed decimal integer, as std's
/// integer parsing reads it: an optional `+` or `-`, then one or more
/// digits and nothing else, rejected when the value does not fit in `i32`.
pub open spec fn spec_parse_i32(s: Seq<char>) -> Option<i32> {
    let signed = s.len() > 0 && (s[0] == '-' || s[0] == '+');
    let neg = s.len() > 0 && s[0] == '-';
    let ds = if signed {
        s.subrange(1, s.len() as int)
    } else {
        s
    };
    if ds.len() == 0 || !all_digits(ds) {
        None
    } else {
        let v = if neg {
            -digits_val(ds)
        } else {
            digits_val(ds)
        };
        if -0x8000_0000 <= v && v <= 0x7fff_ffff {
            Some(v as i32)
        } else {
            None
        }
    }
}

proof fn lemma_digits_val_nonneg(s: Seq<char>)
    requires
        all_digits(s),
    ensures
        digits_val(s) >= 0,
    decreases s.len(),
{
    if s.len() > 0 {
        assert(all_digits(s.drop_last()));
        lemma_digits_val_nonneg(s.drop_last());
        assert(is_digit(s.last()));
    }
}

fn digit_of(c: char) -> (r: Option<u32>)
    ensures
        match r {
            Some(d) => is_digit(c) && d == digit_val(c),
            None => !is_digit(c),
        },
{
    if '0' <= c && c <= '9' {
        Some(c as u32 - '0' as u32)
    } else {
        None
    }
}

/// Parse `s` as an optionally signed decimal `i32`, exactly as
/// `spec_parse_i32` reads it.
pub fn parse_i32_str(s: &str) -> (r: Option<i32>)
    ensures
        match r {
            Some(v) => spec_parse_i32(s@) == Some(v),
            None => spec_parse_i32(s@) is None,
        },
{
    let len = s.unicode_len();
    if len == 0 {
        return None;
    }
    let c0 = s.get_char(0);
    let neg = c0 == '-';
    let start: usize = if c0 == '-' || c0 == '+' {
        1
    } else {
        0
    };
    let ghost ds = if s@[0] == '-' || s@[0] == '+' {
        s@.subrange(1, s@.len() as int)
    } else {
        s@
    };
    if start == len {
        proof {
            assert(ds.len() == 0);
        }
        return None;
    }
    proof {
        assert(ds =~= s@.subrange(start as int, len as int));
    }
    let mut acc: u64 = 0;
    let mut i: usize = start;
    while i < len
        invariant
            start <= i <= len,
            start == 0 || start == 1,
            len == s@.len(),
            len > start,
            neg == (s@[0] == '-'),
            ds == (if s@[0] == '-' || s@[0] == '+' {
                s@.subrange(1, s@.len() as int)
            } else {
                s@
            }),
            ds == s@.subrange(start as int, len as int),
            all_digits(ds.take(i - start)),
            digits_val(ds.take(i - start)) <= 0x8000_0000 ==> acc == digits_val(
                ds.take(i - start),
            ),
            digits_val(ds.take(i - start)) > 0x8000_0000 ==> acc == 0x8000_0001,
            acc <= 0x8000_0001,
        decreases len - i,
    {
        let c = s.get_char(i);
        match digit_of(c) {
            None => {
                proof {
                    assert(ds[i - start] == s@[i as int]);
                    assert(!is_digit(ds[i - start]));
                    assert(!all_digits(ds));
                    assert(ds.len() > 0);
                }
                return None;
            },
            Some(d) => {
                proof {
                    lemma_digits_val_nonneg(ds.take(i - start));
                }
                let newacc = acc * 10 + d as u64;
                let ghost prev = ds.take(i - start);
                proof {
                    assert(ds.take(i + 1 - start).drop_last() =~= prev);
                    assert(ds.take(i + 1 - start).last() == ds[i - start]);
                    assert(ds[i - start] == s@[i as int]);
                    assert(digits_val(ds.take(i + 1 - start)) == digits_val(prev) * 10
                        + digit_val(ds[i - start]));
                }
                acc = if newacc > 0x8000_0000 {
                    0x8000_0001
                } else {
                    newacc
                };
                i = i + 1;
            },
        }
    }
    proof {
        assert(ds.take(len - start) =~= ds);
        lemma_digits_val_nonneg(ds);
    }
    if neg {
        if acc <= 0x8000_0000 {
            let v = -(acc as i64);
            proof {
                assert(-0x8000_0000 <= v <= 0x7fff_ffff);
            }
            Some(v as i32)
        } else {
            None
        }
    } else {
        if acc <= 0x7fff_ffff {
            Some(acc as i32)
        } else {
            None
        }
    }
}

/// The character of one decimal digit value.
pub open spec fn digit_char(d: int) -> char {
    if d == 0 {
        '0'
    } else if d == 1 {
        '1'
    } else if d == 2 {
        '2'
    } else if d == 3 {
        '3'
    } else if d == 4 {
        '4'
    } else if d == 5 {
        '5'
    } else if d == 6 {
        '6'
    } else if d == 7 {
        '7'
    } else if d == 8 {
        '8'
    } else {
        '9'
    }
}

/// The decimal digits of a non-negative `n`, most significant first.
pub open spec fn dec_digits(n: int) -> Seq<char>
    decreases n when n >= 0
{
    if n < 10 {
        seq![digit_char(n)]
    } else {
        dec_digits(n / 10).push(digit_char(n % 10))
    }
}

/// The plain decimal text of `n`: a minus sign for a negative value, then
/// its digits without leading zeros.
pub open spec fn spec_i32_text(n: int) -> Seq<char> {
    if n < 0 {
        seq!['-'] + dec_digits(-n)
    } else {
        dec_digits(n)
    }
}

fn digit_str(d: u32) -> (r: &'static str)
    requires
        d < 10,
    ensures
        r@ == seq![digit_char(d as int)],
{
    let r = match d {
        0 => "0",
        1 => "1",
        2 => "2",
        3 => "3",
        4 => "4",
        5 => "5",
        6 => "6",
        7 => "7",
        8 => "8",
        _ => "9",
    };
    proof {
        reveal_strlit("0");
        reveal_strlit("1");
        reveal_strlit("2");
        reveal_strlit("3");
        reveal_strlit("4");
        reveal_strlit("5");
        reveal_strlit("6");
        reveal_strlit("7");
        reveal_strlit("8");
        reveal_strlit("9");
        assert(r@ =~= seq![digit_char(d as int)]);
    }
    r
}

fn push_decimal(out: &mut String, n: u32)
    ensures
        final(out)@ == old(out)@ + dec_digits(n as int),
    decreases n,
{
    if n < 10 {
        out.append(digit_str(n));
        proof {
            assert(final(out)@ =~= old(out)@ + dec_digits(n as int));
        }
    } else {
        push_decimal(out, n / 10);
        out.append(digit_str(n % 10));
        proof {
            assert(final(out)@ =~= old(out)@ + dec_digits(n as int));
        }
    }
}

/// The plain decimal text of `n`, as a command argument carries it.
pub fn format_i32(n: i32) -> (r: String)
    ensures
        r@ == spec_i32_text(n as int),
{
    if n >= 0 {
        let mut out = String::new();
        push_decimal(&mut out, n as u32);
        proof {
            assert(Seq::<char>::empty() + dec_digits(n as int) =~= dec_digits(n as int));
        }
        out
    } else {
        let mag = -(n as i64);
        let mut out = String::from_str("-");
        push_decimal(&mut out, mag as u32);
        proof {
            reveal_strlit("-");
            assert("-"@ =~= seq!['-']);
        }
        out
    }
}

/// A line with a trailing carriage return removed.
pub open spec fn strip_cr(l: Seq<char>) -> Seq<char> {
    if l.len() > 0 && l.last() == '\r' {
        l.drop_last()
    } else {
        l
    }
}

/// The lines of `s` from index `k` on: `cur` is the partial line scanned so
/// far, `acc` the finished lines before it.
pub open spec fn spec_lines_acc(
    s: Seq<char>,
    k: int,
    cur: Seq<char>,
    acc: Seq<Seq<char>>,
) -> Seq<Seq<char>>
    decreases s.len() - k when 0 <= k <= s.len()
{
    if k >= s.len() {
        if cur.len() == 0 {
            acc
        } else {
            acc.push(cur)
        }
    } else if s[k] == '\n' {
        spec_lines_acc(s, k + 1, Seq::empty(), acc.push(strip_cr(cur)))
    } else {
        spec_lines_acc(s, k + 1, cur.push(s[k]), acc)
    }
}

/// The lines of `s`: split at each newline, a carriage return directly
/// before the newline dropped, with no trailing empty line for a final
/// newline.
pub open spec fn spec_lines(s: Seq<char>) -> Seq<Seq<char>> {
    spec_lines_acc(s, 0, Seq::empty(), Seq::empty())
}

/// Split `s` into its lines.
pub fn split_lines(s: &str) -> (r: Vec<String>)
    ensures
        r.deep_view() == spec_lines(s@),
{
    let len = s.unicode_len();
    let mut out: Vec<String> = Vec::new();
    let mut start: usize = 0;
    let mut i: usize = 0;
    proof {
        assert(s@.subrange(0, 0) =~= Seq::<char>::empty());
        assert(out.deep_view() =~= Seq::<Seq<char>>::empty());
    }
    while i < len
        invariant
            0 <= start <= i <= len,
            len == s@.len(),
            spec_lines_acc(
                s@,
                i as int,
                s@.subrange(start as int, i as int),
                out.deep_view(),
            ) == spec_lines(s@),
        decreases len - i,
    {
        let ghost cur = s@.subrange(start as int, i as int);
        let c = s.get_char(i);
        if c == '\n' {
            let end = if i > start && s.get_char(i - 1) == '\r' {
                i - 1
            } else {
                i
            };
            let line = s.substring_char(start, end).to_owned();
            proof {
                assert(strip_cr(cur) =~= s@.subrange(start as int, end as int));
            }
            let ghost before = out.deep_view();
            out.push(line);
            proof {
                assert(out.deep_view() =~= before.push(strip_cr(cur)));
                assert(s@.subrange(i + 1, i + 1) =~= Seq::<char>::empty());
            }
            start = i + 1;
        } else {
            proof {
                assert(s@.subrange(start as int, i + 1) =~= cur.push(s@[i as int]));
            }
        }
        i = i + 1;
    }
    if start < len {
        let line = s.substring_char(start, len).to_owned();
        let ghost before = out.deep_view();
        out.push(line);
        proof {
            assert(out.deep_view() =~= before.push(s@.subrange(start as int, len as int)));
        }
    }
    out
}

/// Character-for-character equality of two strings.
pub fn str_eq(a: &str, b: &str) -> (r: bool)
    ensures
        r == (a@ == b@),
{
    let alen = a.unicode_len();
    let blen = b.unicode_len();
    if alen != blen {
        proof {
            assert(a@ != b@);
        }
        return false;
    }
    let mut j: usize = 0;
    while j < alen
        invariant
            0 <= j <= alen,
            alen == a@.len(),
            alen == b@.len(),
            forall|i: int| 0 <= i < j ==> a@[i] == b@[i],
        decreases alen - j,
    {
        if a.get_char(j) != b.get_char(j) {
            return false;
        }
        j = j + 1;
    }
    proof {
        assert(a@ =~= b@);
    }
    true
}

} // verus!
