//! Small text utilities over `char` sequences, shared by the codecs and the
//! configuration renderers.

use vstd::prelude::*;
use vstd::utf8::*;

verus! {

/// All characters of `s`, in order (`str::chars` collected).
#[verifier::external_body]
pub(crate) fn chars_of(s: &str) -> (r: Vec<char>)
    ensures
        r@ == s@,
{
    s.chars().collect()
}

/// A `String` holding exactly the characters of `v` (`FromIterator<char>`).
#[verifier::external_body]
pub(crate) fn string_from_chars(v: &[char]) -> (r: String)
    ensures
        r@ == v@,
{
    v.iter().collect()
}

/// Decode UTF-8 bytes (`std::str::from_utf8`); `None` when the bytes are not
/// valid UTF-8.
#[verifier::external_body]
pub(crate) fn utf8_to_string(bytes: &[u8]) -> (r: Option<String>)
    ensures
        r is Some <==> valid_utf8(bytes@),
        r matches Some(s) ==> s@ == decode_utf8(bytes@),
{
    match std::str::from_utf8(bytes) {
        Ok(s) => Some(s.to_string()),
        Err(_) => None,
    }
}

/// Whether two strings hold the same characters.
pub fn str_eq(a: &str, b: &str) -> (r: bool)
    ensures
        r == (a@ == b@),
{
    let x = chars_of(a);
    let y = chars_of(b);
    if x.len() != y.len() {
        return false;
    }
    let mut i: usize = 0;
    while i < x.len()
        invariant
            x@ == a@,
            y@ == b@,
            x.len() == y.len(),
            i <= x.len(),
            forall|j: int| 0 <= j < i ==> x@[j] == y@[j],
        decreases x.len() - i,
    {
        if x[i] != y[i] {
            return false;
        }
        i = i + 1;
    }
    assert(x@ =~= y@);
    true
}

/// Append all of `src` to `dst`.
pub fn push_all(dst: &mut Vec<char>, src: &[char])
    ensures
        final(dst)@ == old(dst)@ + src@,
{
    let mut i: usize = 0;
    while i < src.len()
        invariant
            i <= src.len(),
            dst@ == old(dst)@ + src@.subrange(0, i as int),
        decreases src.len() - i,
    {
        dst.push(src[i]);
        i = i + 1;
        assert(dst@ =~= old(dst)@ + src@.subrange(0, i as int));
    }
    assert(src@.subrange(0, src.len() as int) =~= src@);
}

/// Decimal digits of `n`, most significant first, with no leading zeros
/// (`"0"` for zero).
pub open spec fn decimal(n: nat) -> Seq<char>
    decreases n,
{
    if n < 10 {
        seq![digit_char(n)]
    } else {
        decimal(n / 10).push(digit_char(n % 10))
    }
}

/// The ASCII digit for `d < 10`.
pub open spec fn digit_char(d: nat) -> char {
    if d == 0 { '0' }
    else if d == 1 { '1' }
    else if d == 2 { '2' }
    else if d == 3 { '3' }
    else if d == 4 { '4' }
    else if d == 5 { '5' }
    else if d == 6 { '6' }
    else if d == 7 { '7' }
    else if d == 8 { '8' }
    else { '9' }
}

fn digit(d: u64) -> (c: char)
    requires
        d < 10,
    ensures
        c == digit_char(d as nat),
{
    if d == 0 { '0' }
    else if d == 1 { '1' }
    else if d == 2 { '2' }
    else if d == 3 { '3' }
    else if d == 4 { '4' }
    else if d == 5 { '5' }
    else if d == 6 { '6' }
    else if d == 7 { '7' }
    else if d == 8 { '8' }
    else { '9' }
}

/// Append the decimal rendering of `n` to `out`.
pub fn push_decimal(out: &mut Vec<char>, n: u64)
    ensures
        final(out)@ == old(out)@ + decimal(n as nat),
    decreases n,
{
    if n < 10 {
        out.push(digit(n));
        assert(decimal(n as nat) =~= seq![digit_char(n as nat)]);
    } else {
        push_decimal(out, n / 10);
        out.push(digit(n % 10));
        assert(out@ =~= old(out)@ + decimal(n as nat));
    }
}

} // verus!

verus! {

/// `s` begins with `prefix`.
pub open spec fn has_prefix(s: Seq<char>, prefix: Seq<char>) -> bool {
    prefix.len() <= s.len() && s.subrange(0, prefix.len() as int) == prefix
}

/// Whether `s` begins with `prefix`.
pub fn starts_with(s: &[char], prefix: &[char]) -> (r: bool)
    ensures
        r == has_prefix(s@, prefix@),
{
    if prefix.len() > s.len() {
        return false;
    }
    let mut i: usize = 0;
    while i < prefix.len()
        invariant
            prefix@.len() <= s@.len(),
            i <= prefix@.len(),
            forall|k: int| 0 <= k < i ==> s@[k] == prefix@[k],
        decreases prefix.len() - i,
    {
        if s[i] != prefix[i] {
            assert(s@.subrange(0, prefix@.len() as int)[i as int] != prefix@[i as int]);
            return false;
        }
        i = i + 1;
    }
    assert(s@.subrange(0, prefix@.len() as int) =~= prefix@);
    true
}

/// Whether two character slices are equal.
pub fn chars_eq(a: &[char], b: &[char]) -> (r: bool)
    ensures
        r == (a@ == b@),
{
    if a.len() != b.len() {
        return false;
    }
    let mut i: usize = 0;
    while i < a.len()
        invariant
            a@.len() == b@.len(),
            i <= a@.len(),
            forall|k: int| 0 <= k < i ==> a@[k] == b@[k],
        decreases a.len() - i,
    {
        if a[i] != b[i] {
            return false;
        }
        i = i + 1;
    }
    assert(a@ =~= b@);
    true
}

/// The characters `s[start..end]`.
pub fn slice_chars(s: &[char], start: usize, end: usize) -> (r: Vec<char>)
    requires
        start <= end <= s@.len(),
    ensures
        r@ == s@.subrange(start as int, end as int),
{
    let mut out: Vec<char> = Vec::new();
    let mut i = start;
    while i < end
        invariant
            start <= i <= end <= s@.len(),
            out@ == s@.subrange(start as int, i as int),
        decreases end - i,
    {
        out.push(s[i]);
        i = i + 1;
        assert(out@ =~= s@.subrange(start as int, i as int));
    }
    out
}

/// Index of the last occurrence of `c` in `s`.
pub open spec fn last_index_of(s: Seq<char>, c: char) -> Option<int>
    decreases s.len(),
{
    if s.len() == 0 {
        None
    } else if s.last() == c {
        Some(s.len() - 1)
    } else {
        last_index_of(s.drop_last(), c)
    }
}

pub proof fn lemma_last_index_of(s: Seq<char>, c: char)
    ensures
        last_index_of(s, c) matches Some(k) ==> 0 <= k < s.len() && s[k] == c && forall|j: int|
            k < j < s.len() ==> s[j] != c,
        last_index_of(s, c) is None ==> forall|j: int| 0 <= j < s.len() ==> s[j] != c,
    decreases s.len(),
{
    if s.len() > 0 && s.last() != c {
        lemma_last_index_of(s.drop_last(), c);
        assert forall|j: int| 0 <= j < s.len() - 1 implies s[j] == s.drop_last()[j] by {}
    }
}

/// Index of the last `c` in `s` (`str::rsplit_once` splits there).
pub fn find_last(s: &[char], c: char) -> (r: Option<usize>)
    ensures
        r matches Some(k) ==> last_index_of(s@, c) == Some(k as int),
        r is None ==> last_index_of(s@, c) is None,
{
    let mut i = s.len();
    assert(s@.subrange(0, i as int) =~= s@);
    while i > 0
        invariant
            i <= s@.len(),
            last_index_of(s@, c) == last_index_of(s@.subrange(0, i as int), c),
        decreases i,
    {
        if s[i - 1] == c {
            assert(s@.subrange(0, i as int).last() == c);
            return Some(i - 1);
        }
        assert(s@.subrange(0, i as int).drop_last() =~= s@.subrange(0, i - 1));
        i = i - 1;
    }
    None
}

/// The pieces of `s` between occurrences of `c` (`str::split(c)`): one piece
/// more than there are separators.
pub open spec fn split_char(s: Seq<char>, c: char) -> Seq<Seq<char>>
    decreases s.len(),
{
    if s.len() == 0 {
        seq![seq![]]
    } else {
        let init = split_char(s.drop_last(), c);
        if s.last() == c {
            init.push(seq![])
        } else {
            init.update(init.len() - 1, init.last().push(s.last()))
        }
    }
}

pub proof fn lemma_split_char_nonempty(s: Seq<char>, c: char)
    ensures
        split_char(s, c).len() >= 1,
    decreases s.len(),
{
    if s.len() > 0 {
        lemma_split_char_nonempty(s.drop_last(), c);
    }
}

/// The views of a vector of character vectors.
pub open spec fn pieces_view(v: Seq<Vec<char>>) -> Seq<Seq<char>> {
    v.map_values(|p: Vec<char>| p@)
}

/// Split `s` at every `c` (`str::split(c)`), keeping empty pieces.
pub fn split_on(s: &[char], c: char) -> (r: Vec<Vec<char>>)
    ensures
        pieces_view(r@) == split_char(s@, c),
{
    let mut out: Vec<Vec<char>> = Vec::new();
    out.push(Vec::new());
    assert(pieces_view(out@) =~= split_char(s@.subrange(0, 0), c));
    let mut i: usize = 0;
    while i < s.len()
        invariant
            i <= s@.len(),
            out@.len() >= 1,
            pieces_view(out@) == split_char(s@.subrange(0, i as int), c),
        decreases s.len() - i,
    {
        let ghost prev = s@.subrange(0, i as int);
        assert(s@.subrange(0, i + 1).drop_last() =~= prev);
        assert(s@.subrange(0, i + 1).last() == s@[i as int]);
        if s[i] == c {
            out.push(Vec::new());
            assert(pieces_view(out@) =~= split_char(prev, c).push(seq![]));
        } else {
            let mut last = out.pop().unwrap();
            last.push(s[i]);
            out.push(last);
            assert(pieces_view(out@) =~= split_char(prev, c).update(
                split_char(prev, c).len() - 1,
                split_char(prev, c).last().push(s@[i as int]),
            ));
        }
        i = i + 1;
    }
    assert(s@.subrange(0, s@.len() as int) =~= s@);
    out
}

/// The value of a string of decimal digits.
pub open spec fn digits_value(s: Seq<char>) -> nat
    decreases s.len(),
{
    if s.len() == 0 {
        0
    } else {
        digits_value(s.drop_last()) * 10 + (s.last() as nat - '0' as nat) as nat
    }
}

pub open spec fn all_digits(s: Seq<char>) -> bool {
    forall|i: int| 0 <= i < s.len() ==> '0' <= #[trigger] s[i] <= '9'
}

/// What `u16::from_str` gives: an optional `+`, then one or more decimal
/// digits whose value fits in 16 bits.
pub open spec fn parse_u16_text(s: Seq<char>) -> Option<u16> {
    let body = if s.len() > 0 && s[0] == '+' { s.drop_first() } else { s };
    if body.len() == 0 || !all_digits(body) || digits_value(body) > 0xffff {
        None
    } else {
        Some(digits_value(body) as u16)
    }
}

/// Parse a decimal `u16` from `s[start..end]`.
pub fn parse_u16_chars(s: &[char], start: usize, end: usize) -> (r: Option<u16>)
    requires
        start <= end <= s@.len(),
    ensures
        r == parse_u16_text(s@.subrange(start as int, end as int)),
{
    let ghost t = s@.subrange(start as int, end as int);
    let mut i = start;
    if i < end && s[i] == '+' {
        i = i + 1;
    }
    let ghost body = if t.len() > 0 && t[0] == '+' { t.drop_first() } else { t };
    assert(body =~= s@.subrange(i as int, end as int));
    if i == end {
        return None;
    }
    let body_start = i;
    let mut value: u32 = 0;
    while i < end
        invariant
            start <= body_start <= i <= end <= s@.len(),
            t == s@.subrange(start as int, end as int),
            body == (if t.len() > 0 && t[0] == '+' { t.drop_first() } else { t }),
            body == s@.subrange(body_start as int, end as int),
            all_digits(s@.subrange(body_start as int, i as int)),
            value as nat == digits_value(s@.subrange(body_start as int, i as int)),
            value <= 0xffff,
        decreases end - i,
    {
        let ch = s[i];
        if ch < '0' || ch > '9' {
            assert(!all_digits(body)) by {
                assert(body[i - body_start] == ch);
            }
            assert(parse_u16_text(t) == None::<u16>);
            return None;
        }
        let d: u32 = (ch as u32) - ('0' as u32);
        proof {
            assert(s@.subrange(body_start as int, i + 1).drop_last() =~= s@.subrange(body_start as int, i as int));
        }
        value = value * 10 + d;
        i = i + 1;
        if value > 0xffff {
            proof {
                lemma_digits_value_prefix_mono(body, (i - body_start) as int);
                assert(body.subrange(0, (i - body_start) as int) =~= s@.subrange(body_start as int, i as int));
            }
            assert(parse_u16_text(t) == None::<u16>);
            return None;
        }
    }
    assert(s@.subrange(body_start as int, end as int) =~= body);
    Some(value as u16)
}

/// A longer run of digits is worth at least as much as its prefix.
proof fn lemma_digits_value_prefix_mono(s: Seq<char>, k: int)
    requires
        0 <= k <= s.len(),
    ensures
        all_digits(s) ==> digits_value(s.subrange(0, k)) <= digits_value(s),
    decreases s.len() - k,
{
    if k == s.len() {
        assert(s.subrange(0, k) =~= s);
    } else if all_digits(s) {
        lemma_digits_value_prefix_mono(s, k + 1);
        assert(s.subrange(0, k + 1).drop_last() =~= s.subrange(0, k));
        assert('0' <= s[k] <= '9');
        assert(digits_value(s.subrange(0, k + 1)) == digits_value(s.subrange(0, k)) * 10 + (s[k] as nat - '0' as nat) as nat);
    }
}

} // verus!

verus! {

/// `char::is_whitespace`: the Unicode `White_Space` characters.
pub open spec fn is_ws(c: char) -> bool {
    ||| '\u{9}' <= c <= '\u{d}'
    ||| c == ' '
    ||| c == '\u{85}'
    ||| c == '\u{a0}'
    ||| c == '\u{1680}'
    ||| '\u{2000}' <= c <= '\u{200a}'
    ||| c == '\u{2028}'
    ||| c == '\u{2029}'
    ||| c == '\u{202f}'
    ||| c == '\u{205f}'
    ||| c == '\u{3000}'
}

fn is_ws_char(c: char) -> (r: bool)
    ensures
        r == is_ws(c),
{
    ('\u{9}' <= c && c <= '\u{d}') || c == ' ' || c == '\u{85}' || c == '\u{a0}' || c == '\u{1680}'
        || ('\u{2000}' <= c && c <= '\u{200a}') || c == '\u{2028}' || c == '\u{2029}' || c == '\u{202f}'
        || c == '\u{205f}' || c == '\u{3000}'
}

/// `s` without leading whitespace.
pub open spec fn trim_start_ws(s: Seq<char>) -> Seq<char>
    decreases s.len(),
{
    if s.len() > 0 && is_ws(s[0]) {
        trim_start_ws(s.drop_first())
    } else {
        s
    }
}

/// `s` without trailing whitespace.
pub open spec fn trim_end_ws(s: Seq<char>) -> Seq<char>
    decreases s.len(),
{
    if s.len() > 0 && is_ws(s.last()) {
        trim_end_ws(s.drop_last())
    } else {
        s
    }
}

/// `str::trim`.
pub open spec fn trim_ws(s: Seq<char>) -> Seq<char> {
    trim_end_ws(trim_start_ws(s))
}

/// The bounds `[a, b)` of `str::trim` applied to `s`.
pub fn trim_bounds(s: &[char]) -> (r: (usize, usize))
    ensures
        r.0 <= r.1 <= s@.len(),
        s@.subrange(r.0 as int, r.1 as int) == trim_ws(s@),
{
    let mut a: usize = 0;
    assert(s@.subrange(0, s@.len() as int) =~= s@);
    while a < s.len() && is_ws_char(s[a])
        invariant
            a <= s@.len(),
            trim_start_ws(s@) == trim_start_ws(s@.subrange(a as int, s@.len() as int)),
        decreases s.len() - a,
    {
        assert(s@.subrange(a as int, s@.len() as int).drop_first() =~= s@.subrange(a + 1, s@.len() as int));
        a = a + 1;
    }
    let mut b: usize = s.len();
    assert(trim_start_ws(s@) == s@.subrange(a as int, b as int));
    while b > a && is_ws_char(s[b - 1])
        invariant
            a <= b <= s@.len(),
            trim_ws(s@) == trim_end_ws(s@.subrange(a as int, b as int)),
        decreases b,
    {
        assert(s@.subrange(a as int, b as int).drop_last() =~= s@.subrange(a as int, b - 1));
        b = b - 1;
    }
    (a, b)
}

/// What `u64::from_str` gives: an optional `+`, then one or more decimal
/// digits whose value fits in 64 bits.
pub open spec fn parse_u64_text(s: Seq<char>) -> Option<u64> {
    let body = if s.len() > 0 && s[0] == '+' { s.drop_first() } else { s };
    if body.len() == 0 || !all_digits(body) || digits_value(body) > 0xffff_ffff_ffff_ffff {
        None
    } else {
        Some(digits_value(body) as u64)
    }
}

/// Parse a decimal `u64` from `s[start..end]`.
pub fn parse_u64_chars(s: &[char], start: usize, end: usize) -> (r: Option<u64>)
    requires
        start <= end <= s@.len(),
    ensures
        r == parse_u64_text(s@.subrange(start as int, end as int)),
{
    let ghost t = s@.subrange(start as int, end as int);
    let mut i = start;
    if i < end && s[i] == '+' {
        i = i + 1;
    }
    let ghost body = if t.len() > 0 && t[0] == '+' { t.drop_first() } else { t };
    assert(body =~= s@.subrange(i as int, end as int));
    if i == end {
        return None;
    }
    let body_start = i;
    let mut value: u128 = 0;
    while i < end
        invariant
            start <= body_start <= i <= end <= s@.len(),
            t == s@.subrange(start as int, end as int),
            body == (if t.len() > 0 && t[0] == '+' { t.drop_first() } else { t }),
            body == s@.subrange(body_start as int, end as int),
            all_digits(s@.subrange(body_start as int, i as int)),
            value as nat == digits_value(s@.subrange(body_start as int, i as int)),
            value <= 0xffff_ffff_ffff_ffff,
        decreases end - i,
    {
        let ch = s[i];
        if ch < '0' || ch > '9' {
            assert(!all_digits(body)) by {
                assert(body[i - body_start] == ch);
            }
            return None;
        }
        let d: u128 = (ch as u128) - ('0' as u128);
        proof {
            assert(s@.subrange(body_start as int, i + 1).drop_last() =~= s@.subrange(body_start as int, i as int));
        }
        value = value * 10 + d;
        i = i + 1;
        if value > 0xffff_ffff_ffff_ffff {
            proof {
                lemma_digits_value_prefix_mono(body, (i - body_start) as int);
                assert(body.subrange(0, (i - body_start) as int) =~= s@.subrange(body_start as int, i as int));
            }
            return None;
        }
    }
    assert(s@.subrange(body_start as int, end as int) =~= body);
    Some(value as u64)
}

} // verus!
