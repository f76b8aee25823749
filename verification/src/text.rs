//! Strings as sequences of characters: conversion, comparison, splitting,
//! trimming, and decimal numbers.

use vstd::prelude::*;
use vstd::string::*;
use vstd::utf8::*;

verus! {

/// The texts held by a sequence of strings.
pub open spec fn texts(s: Seq<String>) -> Seq<Seq<char>> {
    s.map_values(|x: String| x@)
}

/// The text of an optional string.
pub open spec fn opt_text(s: Option<String>) -> Option<Seq<char>> {
    match s {
        Some(x) => Some(x@),
        None => None,
    }
}

/// What is asked for, or else what the environment says, or else what is
/// common.
pub open spec fn preferred(
    asked: Option<Seq<char>>,
    environment: Option<Seq<char>>,
    common: Seq<char>,
) -> Seq<char> {
    match asked {
        Some(t) => t,
        None => match environment {
            Some(t) => t,
            None => common,
        },
    }
}

/// `String::from_utf8`: succeeds exactly on well-formed UTF-8, and the string
/// then holds the characters that the bytes encode.
#[verifier::external_body]
pub(crate) fn string_from_utf8(bytes: Vec<u8>) -> (res: Option<String>)
    ensures
        match res {
            Some(s) => valid_utf8(bytes@) && s@ == decode_utf8(bytes@),
            None => !valid_utf8(bytes@),
        },
{
    String::from_utf8(bytes).ok()
}

/// `String::push`: appends one character.
pub assume_specification[ String::push ](s: &mut String, c: char)
    ensures
        final(s)@ == old(s)@.push(c),
;

/// A text in double quotes, with what cannot be printed escaped.
pub uninterp spec fn quoted_text(s: Seq<char>) -> Seq<char>;

/// The `Debug` form of a `str`: the text in double quotes, with quotes,
/// backslashes and what cannot be printed escaped. It is a function of the
/// text.
#[verifier::external_body]
pub(crate) fn quoted(s: &str) -> (res: String)
    ensures
        res@ == quoted_text(s@),
{
    format!("{:?}", s)
}

/// The characters of `s`.
pub fn chars_of(s: &str) -> (res: Vec<char>)
    ensures
        res@ == s@,
{
    let mut out: Vec<char> = Vec::new();
    for c in it: s.chars()
        invariant
            out@ == it.seq().take(it.index()),
            it.seq() == s@,
    {
        out.push(c);
    }
    out
}

/// The string made of the characters `c`.
pub fn string_of(c: &[char]) -> (res: String)
    ensures
        res@ == c@,
{
    let mut s = String::new();
    let mut i: usize = 0;
    while i < c.len()
        invariant
            i <= c.len(),
            s@ == c@.take(i as int),
        decreases c.len() - i,
    {
        s.push(c[i]);
        i += 1;
    }
    assert(c@.take(c@.len() as int) == c@);
    s
}

/// Whether two strings hold the same characters.
pub fn same_text(a: &str, b: &str) -> (res: bool)
    ensures
        res == (a@ == b@),
{
    let x = chars_of(a);
    let y = chars_of(b);
    if x.len() != y.len() {
        return false;
    }
    let mut i: usize = 0;
    while i < x.len()
        invariant
            i <= x.len(),
            x.len() == y.len(),
            x@ == a@,
            y@ == b@,
            forall|k: int| 0 <= k < i ==> x@[k] == y@[k],
        decreases x.len() - i,
    {
        if x[i] != y[i] {
            return false;
        }
        i += 1;
    }
    assert(a@ =~= b@);
    true
}

/// Whether a text is empty.
pub fn is_empty_text(s: &str) -> (res: bool)
    ensures
        res == (s@.len() == 0),
{
    let res = same_text(s, "");
    proof {
        reveal_strlit("");
        assert(s@.len() == 0 ==> s@ =~= ""@);
    }
    res
}

/// A copy of the bytes `b`.
pub fn copy_bytes(b: &[u8]) -> (res: Vec<u8>)
    ensures
        res@ == b@,
{
    let mut out: Vec<u8> = Vec::new();
    out.extend_from_slice(b);
    assert(out@ =~= b@);
    out
}

/// A copy of the string `s`.
pub fn copy_text(s: &str) -> (res: String)
    ensures
        res@ == s@,
{
    s.to_owned()
}

/// Concatenation of two strings.
pub fn joined(a: &str, b: &str) -> (res: String)
    ensures
        res@ == a@ + b@,
{
    let mut s = copy_text(a);
    s.append(b);
    s
}

/// The position of the first `c` in `s`, or `s.len()` when there is none.
pub open spec fn find(s: Seq<char>, c: char) -> int
    decreases s.len(),
{
    if s.len() == 0 || s[0] == c {
        0
    } else {
        1 + find(s.skip(1), c)
    }
}

/// Where `find` stands: no earlier occurrence, and an occurrence there
/// unless it is the end.
pub proof fn lemma_find(s: Seq<char>, c: char)
    ensures
        0 <= find(s, c) <= s.len(),
        forall|i: int| 0 <= i < find(s, c) ==> s[i] != c,
        find(s, c) < s.len() ==> s[find(s, c)] == c,
    decreases s.len(),
{
    if s.len() == 0 || s[0] == c {
    } else {
        lemma_find(s.skip(1), c);
        let t = s.skip(1);
        assert forall|i: int| 0 <= i < find(s, c) implies s[i] != c by {
            if i > 0 {
                assert(s[i] == t[i - 1]);
            }
        }
    }
}

/// The only position with those two properties is `find`.
pub proof fn lemma_find_is(s: Seq<char>, c: char, k: int)
    requires
        0 <= k <= s.len(),
        forall|i: int| 0 <= i < k ==> s[i] != c,
        k < s.len() ==> s[k] == c,
    ensures
        find(s, c) == k,
{
    lemma_find(s, c);
    let f = find(s, c);
    if f < k {
        assert(s[f] != c);
    } else if f > k {
        assert(s[k] != c);
    }
}

/// Index of the first `c` at or after `from`, or the length.
pub fn find_from(s: &[char], c: char, from: usize) -> (res: usize)
    requires
        from <= s@.len(),
    ensures
        res == from + find(s@.skip(from as int), c),
        from <= res <= s@.len(),
{
    let mut i: usize = from;
    while i < s.len() && s[i] != c
        invariant
            from <= i <= s@.len(),
            forall|k: int| from <= k < i ==> s@[k] != c,
        decreases s@.len() - i,
    {
        i += 1;
    }
    proof {
        let t = s@.skip(from as int);
        assert forall|k: int| 0 <= k < i - from implies t[k] != c by {
            assert(t[k] == s@[from + k]);
        }
        lemma_find_is(t, c, i - from);
    }
    i
}

/// Whether `c` occurs in `s`.
pub fn has_char(s: &[char], c: char) -> (res: bool)
    ensures
        res == s@.contains(c),
{
    let k: usize = find_from(s, c, 0);
    proof {
        assert(s@.skip(0) =~= s@);
        lemma_find(s@, c);
    }
    k < s.len()
}

/// The pieces of `s` between occurrences of `sep`; always at least one.
pub open spec fn split(s: Seq<char>, sep: char) -> Seq<Seq<char>>
    decreases s.len(),
    via split_shrinks
{
    let k = find(s, sep);
    if k >= s.len() {
        seq![s]
    } else {
        seq![s.take(k)] + split(s.skip(k + 1), sep)
    }
}

#[via_fn]
proof fn split_shrinks(s: Seq<char>, sep: char) {
    lemma_find(s, sep);
}

/// The character sequences held by a sequence of vectors.
pub open spec fn pieces(v: Seq<Vec<char>>) -> Seq<Seq<char>> {
    v.map_values(|x: Vec<char>| x@)
}

/// A copy of `s[from..to]`.
pub fn slice_of(s: &[char], from: usize, to: usize) -> (res: Vec<char>)
    requires
        from <= to <= s@.len(),
    ensures
        res@ == s@.subrange(from as int, to as int),
{
    let mut out: Vec<char> = Vec::new();
    let mut i: usize = from;
    while i < to
        invariant
            from <= i <= to <= s@.len(),
            out@ == s@.subrange(from as int, i as int),
        decreases to - i,
    {
        out.push(s[i]);
        i += 1;
    }
    out
}

/// `str::split` on one character.
pub fn split_at_char(s: &[char], sep: char) -> (res: Vec<Vec<char>>)
    ensures
        pieces(res@) == split(s@, sep),
        res@.len() >= 1,
{
    let mut out: Vec<Vec<char>> = Vec::new();
    let mut start: usize = 0;
    assert(s@.skip(0) =~= s@);
    assert(pieces(out@) + split(s@, sep) =~= split(s@, sep));
    loop
        invariant
            start <= s@.len(),
            pieces(out@) + split(s@.skip(start as int), sep) == split(s@, sep),
        decreases s@.len() - start,
    {
        let k: usize = find_from(s, sep, start);
        let ghost rest = s@.skip(start as int);
        let ghost before = out@;
        out.push(slice_of(s, start, k));
        assert(s@.subrange(start as int, k as int) =~= rest.take(k - start));
        assert(pieces(out@) =~= pieces(before).push(rest.take(k - start)));
        if k == s.len() {
            assert(rest.take(k - start) =~= rest);
            assert(split(rest, sep) =~= seq![rest]);
            assert(pieces(out@) =~= split(s@, sep));
            return out;
        }
        assert(rest.skip(k - start + 1) =~= s@.skip(k + 1));
        assert(pieces(out@) + split(s@.skip(k + 1), sep) =~= split(s@, sep));
        start = k + 1;
    }
}

/// What stands before and after the first `c`.
pub open spec fn split_first(s: Seq<char>, c: char) -> Option<(Seq<char>, Seq<char>)> {
    let k = find(s, c);
    if k < s.len() {
        Some((s.take(k), s.skip(k + 1)))
    } else {
        None
    }
}

/// `str::split_once`.
pub fn split_once(s: &[char], c: char) -> (res: Option<(Vec<char>, Vec<char>)>)
    ensures
        match res {
            Some((a, b)) => split_first(s@, c) == Some((a@, b@)),
            None => split_first(s@, c) is None,
        },
{
    let k: usize = find_from(s, c, 0);
    assert(s@.skip(0) =~= s@);
    if k == s.len() {
        return None;
    }
    let a = slice_of(s, 0, k);
    let b = slice_of(s, k + 1, s.len());
    assert(a@ =~= s@.take(k as int));
    assert(b@ =~= s@.skip(k + 1));
    Some((a, b))
}

/// The position of the last `c` in `s`, or -1 when there is none.
pub open spec fn find_last(s: Seq<char>, c: char) -> int
    decreases s.len(),
{
    if s.len() == 0 {
        -1
    } else if s.last() == c {
        s.len() - 1
    } else {
        find_last(s.drop_last(), c)
    }
}

/// What stands before and after the last `c`.
pub open spec fn split_last(s: Seq<char>, c: char) -> Option<(Seq<char>, Seq<char>)> {
    let k = find_last(s, c);
    if k >= 0 {
        Some((s.take(k), s.skip(k + 1)))
    } else {
        None
    }
}

/// `str::rsplit_once`.
pub fn rsplit_once(s: &[char], c: char) -> (res: Option<(Vec<char>, Vec<char>)>)
    ensures
        match res {
            Some((a, b)) => split_last(s@, c) == Some((a@, b@)),
            None => split_last(s@, c) is None,
        },
{
    let mut k: usize = s.len();
    assert(s@.take(s@.len() as int) =~= s@);
    while k > 0 && s[k - 1] != c
        invariant
            k <= s@.len(),
            find_last(s@, c) == find_last(s@.take(k as int), c),
        decreases k,
    {
        assert(s@.take(k as int).drop_last() =~= s@.take(k - 1));
        assert(s@.take(k as int).last() == s@[k - 1]);
        k -= 1;
    }
    if k == 0 {
        assert(s@.take(0) =~= Seq::<char>::empty());
        return None;
    }
    assert(s@.take(k as int).last() == c);
    let a = slice_of(s, 0, k - 1);
    let b = slice_of(s, k, s.len());
    assert(a@ =~= s@.take(k - 1));
    assert(b@ =~= s@.skip(k as int));
    Some((a, b))
}

/// `s` without line ends at its end.
pub open spec fn without_eol(s: Seq<char>) -> Seq<char>
    decreases s.len(),
{
    if s.len() > 0 && (s.last() == '\r' || s.last() == '\n') {
        without_eol(s.drop_last())
    } else {
        s
    }
}

/// `str::trim_end_matches` on carriage returns and line feeds.
pub fn strip_eol(s: &[char]) -> (res: Vec<char>)
    ensures
        res@ == without_eol(s@),
{
    let mut k: usize = s.len();
    assert(s@.take(s@.len() as int) =~= s@);
    while k > 0 && (s[k - 1] == '\r' || s[k - 1] == '\n')
        invariant
            k <= s@.len(),
            without_eol(s@) == without_eol(s@.take(k as int)),
        decreases k,
    {
        assert(s@.take(k as int).drop_last() =~= s@.take(k - 1));
        k -= 1;
    }
    let out = slice_of(s, 0, k);
    assert(out@ =~= s@.take(k as int));
    out
}

/// Unicode `White_Space`.
pub open spec fn white(c: char) -> bool {
    ||| '\u{9}' <= c <= '\u{d}'
    ||| c == '\u{20}'
    ||| c == '\u{85}'
    ||| c == '\u{a0}'
    ||| c == '\u{1680}'
    ||| '\u{2000}' <= c <= '\u{200a}'
    ||| c == '\u{2028}'
    ||| c == '\u{2029}'
    ||| c == '\u{202f}'
    ||| c == '\u{205f}'
    ||| c == '\u{3000}'
}

fn is_white(c: char) -> (res: bool)
    ensures
        res == white(c),
{
    ('\u{9}' <= c && c <= '\u{d}') || c == '\u{20}' || c == '\u{85}' || c == '\u{a0}' || c
        == '\u{1680}' || ('\u{2000}' <= c && c <= '\u{200a}') || c == '\u{2028}' || c == '\u{2029}'
        || c == '\u{202f}' || c == '\u{205f}' || c == '\u{3000}'
}

/// `s` without leading white space.
pub open spec fn trim_start(s: Seq<char>) -> Seq<char>
    decreases s.len(),
{
    if s.len() > 0 && white(s[0]) {
        trim_start(s.skip(1))
    } else {
        s
    }
}

/// `s` without trailing white space.
pub open spec fn trim_end(s: Seq<char>) -> Seq<char>
    decreases s.len(),
{
    if s.len() > 0 && white(s.last()) {
        trim_end(s.drop_last())
    } else {
        s
    }
}

/// `s` without leading and trailing white space.
pub open spec fn trim(s: Seq<char>) -> Seq<char> {
    trim_end(trim_start(s))
}

/// `str::trim`.
pub fn trimmed(s: &[char]) -> (res: Vec<char>)
    ensures
        res@ == trim(s@),
{
    let mut a: usize = 0;
    assert(s@.skip(0) =~= s@);
    while a < s.len() && is_white(s[a])
        invariant
            a <= s@.len(),
            trim_start(s@.skip(a as int)) == trim_start(s@),
        decreases s@.len() - a,
    {
        assert(s@.skip(a as int).skip(1) =~= s@.skip(a + 1));
        a += 1;
    }
    assert(trim_start(s@) == s@.skip(a as int));
    let mut b: usize = s.len();
    assert(s@.subrange(a as int, b as int) =~= s@.skip(a as int));
    while b > a && is_white(s[b - 1])
        invariant
            a <= b <= s@.len(),
            trim_end(s@.subrange(a as int, b as int)) == trim(s@),
        decreases b,
    {
        assert(s@.subrange(a as int, b as int).drop_last() =~= s@.subrange(a as int, b - 1));
        b -= 1;
    }
    slice_of(s, a, b)
}

/// The decimal digit for `d`.
pub open spec fn digit(d: nat) -> char {
    (48 + d) as char
}

/// The decimal notation of `n`, without leading zeros.
pub open spec fn decimal(n: nat) -> Seq<char>
    decreases n,
{
    if n < 10 {
        seq![digit(n)]
    } else {
        decimal(n / 10).push(digit(n % 10))
    }
}

/// The decimal notation of an integer.
pub open spec fn decimal_int(n: int) -> Seq<char> {
    if n < 0 {
        seq!['-'] + decimal((-n) as nat)
    } else {
        decimal(n as nat)
    }
}

/// Appends the decimal notation of `n`.
pub fn push_decimal(out: &mut String, n: u64)
    ensures
        final(out)@ == old(out)@ + decimal(n as nat),
    decreases n,
{
    if n >= 10 {
        push_decimal(out, n / 10);
    }
    let d: u8 = 48 + (n % 10) as u8;
    out.push(d as char);
    assert(out@ =~= old(out)@ + decimal(n as nat));
}

/// The decimal notation of a signed number as a string.
pub fn decimal_int_text(n: i64) -> (res: String)
    ensures
        res@ == decimal_int(n as int),
{
    let mut s = String::new();
    if n < 0 {
        s.push('-');
        let m: u64 = (-(n as i128)) as u64;
        push_decimal(&mut s, m);
        assert(s@ =~= seq!['-'] + decimal(m as nat));
    } else {
        push_decimal(&mut s, n as u64);
        assert(s@ =~= decimal(n as nat));
    }
    s
}

/// Whether `c` is an ASCII digit.
pub open spec fn is_digit(c: char) -> bool {
    '0' <= c <= '9'
}

/// The number that a run of digits denotes.
pub open spec fn digits_value(s: Seq<char>) -> nat
    decreases s.len(),
{
    if s.len() == 0 {
        0
    } else {
        digits_value(s.drop_last()) * 10 + (s.last() as nat - 48) as nat
    }
}

/// Whether `s` is a non-empty run of digits.
pub open spec fn all_digits(s: Seq<char>) -> bool {
    s.len() > 0 && forall|i: int| 0 <= i < s.len() ==> is_digit(#[trigger] s[i])
}

/// The integer that `s` denotes: an optional sign and at least one digit. A
/// minus sign counts only where `signed` holds.
pub open spec fn number(s: Seq<char>, signed: bool) -> Option<int> {
    let body = if s.len() > 0 && (s[0] == '+' || (signed && s[0] == '-')) {
        s.skip(1)
    } else {
        s
    };
    if !all_digits(body) {
        None
    } else if signed && s[0] == '-' {
        Some(-(digits_value(body) as int))
    } else {
        Some(digits_value(body) as int)
    }
}

/// The number in `s` when it lies between `lo` and `hi`.
pub open spec fn number_within(s: Seq<char>, signed: bool, lo: int, hi: int) -> Option<int> {
    match number(s, signed) {
        Some(n) => if lo <= n <= hi {
            Some(n)
        } else {
            None
        },
        None => None,
    }
}

proof fn lemma_digits_grow(s: Seq<char>, i: int)
    requires
        0 <= i <= s.len(),
        forall|k: int| 0 <= k < s.len() ==> is_digit(#[trigger] s[k]),
    ensures
        digits_value(s.take(i)) <= digits_value(s),
    decreases s.len() - i,
{
    if i == s.len() {
        assert(s.take(i) =~= s);
    } else {
        lemma_digits_grow(s, i + 1);
        assert(s.take(i + 1).drop_last() =~= s.take(i));
        assert(is_digit(s[i]));
    }
}

/// The value of the digits `s[from..]` when it is at most `max`.
fn parse_digits(s: &[char], from: usize, max: u64) -> (res: Option<u64>)
    requires
        from <= s@.len(),
    ensures
        match res {
            Some(v) => all_digits(s@.skip(from as int)) && v == digits_value(
                s@.skip(from as int),
            ) && v <= max,
            None => all_digits(s@.skip(from as int)) ==> digits_value(s@.skip(from as int)) > max,
        },
{
    let ghost t = s@.skip(from as int);
    if from == s.len() {
        return None;
    }
    let mut acc: u64 = 0;
    let mut i: usize = from;
    assert(t.take(0) =~= Seq::<char>::empty());
    while i < s.len()
        invariant
            from <= i <= s@.len(),
            from < s@.len(),
            t == s@.skip(from as int),
            forall|k: int| 0 <= k < i - from ==> is_digit(#[trigger] t[k]),
            acc == digits_value(t.take(i - from)),
            acc <= max,
        decreases s@.len() - i,
    {
        let c = s[i];
        assert(c == t[i - from]);
        if !('0' <= c && c <= '9') {
            assert(!is_digit(t[i - from]));
            return None;
        }
        let d: u64 = (c as u32 - 48) as u64;
        proof {
            assert(t.take(i - from + 1).drop_last() =~= t.take(i - from));
            if all_digits(t) {
                lemma_digits_grow(t, i - from + 1);
            }
        }
        if acc > max / 10 || d > max - acc * 10 {
            return None;
        }
        acc = acc * 10 + d;
        i += 1;
    }
    assert(t.take(i - from) =~= t);
    Some(acc)
}

/// `str::parse` for an unsigned type whose largest value is `max`.
pub fn parse_unsigned(s: &[char], max: u64) -> (res: Option<u64>)
    ensures
        match res {
            Some(v) => number_within(s@, false, 0, max as int) == Some(v as int),
            None => number_within(s@, false, 0, max as int) is None,
        },
{
    assert(s@.skip(0) =~= s@);
    if s.len() > 0 && s[0] == '+' {
        parse_digits(s, 1, max)
    } else {
        parse_digits(s, 0, max)
    }
}

/// `str::parse` for `i64`.
pub fn parse_i64(s: &[char]) -> (res: Option<i64>)
    ensures
        match res {
            Some(v) => number_within(s@, true, i64::MIN as int, i64::MAX as int) == Some(v as int),
            None => number_within(s@, true, i64::MIN as int, i64::MAX as int) is None,
        },
{
    assert(s@.skip(0) =~= s@);
    if s.len() > 0 && s[0] == '-' {
        match parse_digits(s, 1, 0x8000_0000_0000_0000) {
            Some(m) => Some((-(m as i128)) as i64),
            None => None,
        }
    } else {
        let from: usize = if s.len() > 0 && s[0] == '+' {
            1
        } else {
            0
        };
        match parse_digits(s, from, 0x7fff_ffff_ffff_ffff) {
            Some(m) => Some(m as i64),
            None => None,
        }
    }
}

// ---------------------------------------------------------------------------
// Laws
// ---------------------------------------------------------------------------

/// The only position with a `c` there and none after it is `find_last`.
pub proof fn lemma_find_last_is(s: Seq<char>, c: char, k: int)
    requires
        -1 <= k < s.len(),
        forall|i: int| k < i < s.len() ==> s[i] != c,
        k >= 0 ==> s[k] == c,
    ensures
        find_last(s, c) == k,
    decreases s.len(),
{
    if s.len() > 0 && s.last() != c {
        lemma_find_last_is(s.drop_last(), c, k);
    }
}

/// A text comes apart at a separator that does not occur before it, where the
/// first one counts, or after it, where the last one counts. A text without
/// the separator does not come apart.
pub proof fn law_split_in_two(a: Seq<char>, c: char, b: Seq<char>)
    ensures
        !a.contains(c) ==> split_first(a + seq![c] + b, c) == Some((a, b)),
        !b.contains(c) ==> split_last(a + seq![c] + b, c) == Some((a, b)),
        !a.contains(c) ==> split_first(a, c) is None && split_last(a, c) is None,
{
    let s = a + seq![c] + b;
    assert(s.take(a.len() as int) =~= a);
    assert(s.skip(a.len() as int + 1) =~= b);
    assert(s[a.len() as int] == c);
    if !a.contains(c) {
        assert forall|i: int| 0 <= i < a.len() implies s[i] != c by {
            assert(a.contains(a[i]));
        }
        lemma_find_is(s, c, a.len() as int);
        assert forall|i: int| 0 <= i < a.len() implies a[i] != c by {
            assert(a.contains(a[i]));
        }
        lemma_find_is(a, c, a.len() as int);
        lemma_find_last_is(a, c, -1);
    }
    if !b.contains(c) {
        assert forall|i: int| a.len() < i < s.len() implies s[i] != c by {
            assert(b.contains(b[i - a.len() - 1]));
        }
        lemma_find_last_is(s, c, a.len() as int);
    }
}

/// Texts in a row, with a separator between each two.
pub open spec fn join(parts: Seq<Seq<char>>, sep: char) -> Seq<char>
    decreases parts.len(),
{
    if parts.len() == 0 {
        Seq::empty()
    } else if parts.len() == 1 {
        parts[0]
    } else {
        parts[0] + seq![sep] + join(parts.skip(1), sep)
    }
}

/// Splitting undoes joining: texts without the separator come out of their
/// join as they went in.
pub proof fn law_split_of_join(parts: Seq<Seq<char>>, sep: char)
    requires
        parts.len() > 0,
        forall|i: int| 0 <= i < parts.len() ==> !(#[trigger] parts[i]).contains(sep),
    ensures
        split(join(parts, sep), sep) == parts,
    decreases parts.len(),
{
    let a = parts[0];
    assert(!parts[0].contains(sep));
    if parts.len() == 1 {
        law_split_in_two(a, sep, Seq::empty());
        lemma_find(a, sep);
        assert(split(a, sep) =~= seq![a]);
        assert(parts =~= seq![a]);
    } else {
        let rest = parts.skip(1);
        assert forall|i: int| 0 <= i < rest.len() implies !(#[trigger] rest[i]).contains(sep) by {
            assert(rest[i] == parts[i + 1]);
        }
        law_split_of_join(rest, sep);
        let s = join(parts, sep);
        law_split_in_two(a, sep, join(rest, sep));
        lemma_find(s, sep);
        assert(split_first(s, sep) == Some((a, join(rest, sep))));
        assert(split(s, sep) =~= seq![a] + rest);
        assert(parts =~= seq![a] + rest);
    }
}

/// Joining undoes splitting, and no piece has the separator in it.
pub proof fn law_join_of_split(s: Seq<char>, sep: char)
    ensures
        join(split(s, sep), sep) == s,
        split(s, sep).len() > 0,
        forall|i: int| 0 <= i < split(s, sep).len() ==> !(#[trigger] split(s, sep)[i]).contains(sep),
    decreases s.len(),
{
    let k = find(s, sep);
    lemma_find(s, sep);
    if k < s.len() {
        let rest = s.skip(k + 1);
        law_join_of_split(rest, sep);
        let parts = seq![s.take(k)] + split(rest, sep);
        assert(split(s, sep) == parts);
        assert(parts.skip(1) =~= split(rest, sep));
        assert(s =~= s.take(k) + seq![sep] + rest);
        assert forall|i: int| 0 <= i < parts.len() implies !(#[trigger] parts[i]).contains(sep) by {
            if i > 0 {
                assert(parts[i] == split(rest, sep)[i - 1]);
            }
        }
    } else {
        assert(split(s, sep) =~= seq![s]);
    }
}

/// A number is read back from its decimal notation, which is made of digits
/// alone. A plus sign and zeros before it change nothing.
pub proof fn law_decimal_reads_back(n: nat)
    ensures
        all_digits(decimal(n)),
        digits_value(decimal(n)) == n,
        number(decimal(n), true) == Some(n as int),
        number(decimal(n), false) == Some(n as int),
        number(seq!['+'] + decimal(n), false) == Some(n as int),
        number(seq!['0'] + decimal(n), false) == Some(n as int),
    decreases n,
{
    if n >= 10 {
        law_decimal_reads_back(n / 10);
        let d = decimal(n / 10);
        assert(decimal(n).drop_last() =~= d);
        assert forall|i: int| 0 <= i < decimal(n).len() implies is_digit(#[trigger] decimal(n)[i]) by {
            if i < d.len() {
                assert(decimal(n)[i] == d[i]);
            }
        }
    } else {
        assert(decimal(n).drop_last() =~= Seq::<char>::empty());
        assert(digits_value(Seq::<char>::empty()) == 0);
    }
    assert(decimal(n).last() as nat == 48 + n % 10);
    assert(digits_value(decimal(n)) == digits_value(decimal(n).drop_last()) * 10 + n % 10);
    assert(is_digit(decimal(n)[0]));
    let plus = seq!['+'] + decimal(n);
    assert(plus.skip(1) =~= decimal(n));
    let zero = seq!['0'] + decimal(n);
    lemma_leading_zero(decimal(n));
    assert forall|i: int| 0 <= i < zero.len() implies is_digit(#[trigger] zero[i]) by {
        if i > 0 {
            assert(zero[i] == decimal(n)[i - 1]);
        }
    }
}

proof fn lemma_leading_zero(s: Seq<char>)
    ensures
        digits_value(seq!['0'] + s) == digits_value(s),
    decreases s.len(),
{
    let z = seq!['0'] + s;
    if s.len() == 0 {
        assert(z.drop_last() =~= Seq::<char>::empty());
        assert(digits_value(Seq::<char>::empty()) == 0);
    } else {
        assert(z.drop_last() =~= seq!['0'] + s.drop_last());
        lemma_leading_zero(s.drop_last());
    }
}

/// A signed number is read back from its decimal notation, and a minus sign
/// counts only where signs are meant.
pub proof fn law_signed_decimal_reads_back(n: int)
    ensures
        number(decimal_int(n), true) == Some(n),
        n < 0 ==> number(decimal_int(n), false) is None,
{
    if n < 0 {
        let d = decimal((-n) as nat);
        law_decimal_reads_back((-n) as nat);
        assert((seq!['-'] + d).skip(1) =~= d);
        assert(!is_digit((seq!['-'] + d)[0]));
    } else {
        law_decimal_reads_back(n as nat);
    }
}

/// The decimal notation has no character but digits in it.
pub proof fn law_decimal_has_only(n: nat, c: char)
    ensures
        !('0' <= c <= '9') ==> !decimal(n).contains(c),
{
    law_decimal_reads_back(n);
    assert forall|i: int| 0 <= i < decimal(n).len() implies #[trigger] decimal(n)[i] != c || '0' <= c <= '9' by {
        assert(is_digit(decimal(n)[i]));
    }
}

/// What denotes no number: an empty text, and one with a character that is
/// neither a digit nor a sign in front.
pub proof fn law_no_number(s: Seq<char>, i: int, signed: bool)
    requires
        s.len() == 0 || (0 <= i < s.len() && !('0' <= s[i] <= '9') && (i > 0 || (s[0] != '+' && s[0]
            != '-'))),
    ensures
        number(s, signed) is None,
{
    if s.len() > 0 {
        let body = if s[0] == '+' || (signed && s[0] == '-') {
            s.skip(1)
        } else {
            s
        };
        if s[0] == '+' || (signed && s[0] == '-') {
            assert(body[i - 1] == s[i]);
            assert(!is_digit(body[i - 1]));
        } else {
            assert(!is_digit(body[i]));
        }
    }
}

/// Trimming takes off white space at both ends and nothing else.
pub proof fn law_trim(s: Seq<char>) -> (cut: (int, int))
    ensures
        0 <= cut.0 <= cut.1 <= s.len(),
        trim(s) == s.subrange(cut.0, cut.1),
        forall|i: int| 0 <= i < cut.0 ==> white(#[trigger] s[i]),
        forall|i: int| cut.1 <= i < s.len() ==> white(#[trigger] s[i]),
        trim(s).len() > 0 ==> !white(trim(s)[0]) && !white(trim(s).last()),
{
    let a = lemma_trim_start(s);
    let t = s.skip(a);
    let b = lemma_trim_end(t);
    assert(t.take(b) =~= s.subrange(a, a + b));
    assert forall|i: int| a + b <= i < s.len() implies white(#[trigger] s[i]) by {
        assert(t[i - a] == s[i]);
    }
    if b > 0 {
        assert(t.take(b)[0] == t[0]);
    }
    (a, a + b)
}

proof fn lemma_trim_start(s: Seq<char>) -> (k: int)
    ensures
        0 <= k <= s.len(),
        trim_start(s) == s.skip(k),
        forall|i: int| 0 <= i < k ==> white(#[trigger] s[i]),
        k < s.len() ==> !white(s[k]),
    decreases s.len(),
{
    if s.len() > 0 && white(s[0]) {
        let k = lemma_trim_start(s.skip(1));
        assert(s.skip(1).skip(k) =~= s.skip(k + 1));
        assert forall|i: int| 0 <= i < k + 1 implies white(#[trigger] s[i]) by {
            if i > 0 {
                assert(s.skip(1)[i - 1] == s[i]);
            }
        }
        k + 1
    } else {
        assert(s.skip(0) =~= s);
        0
    }
}

proof fn lemma_trim_end(s: Seq<char>) -> (k: int)
    ensures
        0 <= k <= s.len(),
        trim_end(s) == s.take(k),
        forall|i: int| k <= i < s.len() ==> white(#[trigger] s[i]),
        k > 0 ==> !white(s[k - 1]),
    decreases s.len(),
{
    if s.len() > 0 && white(s.last()) {
        let k = lemma_trim_end(s.drop_last());
        assert(s.drop_last().take(k) =~= s.take(k));
        assert forall|i: int| k <= i < s.len() implies white(#[trigger] s[i]) by {
            if i < s.len() - 1 {
                assert(s.drop_last()[i] == s[i]);
            }
        }
        k
    } else {
        assert(s.take(s.len() as int) =~= s);
        s.len() as int
    }
}

/// Of the ASCII characters, the space and those from the tab to the carriage
/// return are white space.
pub proof fn law_ascii_white(c: char)
    requires
        c as u32 <= 0x7f,
    ensures
        white(c) <==> (c == ' ' || c == '\t' || c == '\n' || c == '\r' || c as u32 == 0xb || c as u32
            == 0xc),
{
}

/// Line ends at the end of a text do not count, and nothing else is taken off.
pub proof fn law_without_eol(s: Seq<char>)
    ensures
        without_eol(s.push('\n')) == without_eol(s),
        without_eol(s.push('\r')) == without_eol(s),
        s.len() == 0 || (s.last() != '\n' && s.last() != '\r') ==> without_eol(s) == s,
{
    assert(s.push('\n').drop_last() =~= s);
    assert(s.push('\r').drop_last() =~= s);
}

/// The pieces of two texts with a separator between them are those of the one
/// and those of the other.
pub proof fn law_split_adds_up(x: Seq<char>, y: Seq<char>, sep: char)
    ensures
        split(x + seq![sep] + y, sep) == split(x, sep) + split(y, sep),
    decreases x.len(),
{
    let s = x + seq![sep] + y;
    let k = find(x, sep);
    lemma_find(x, sep);
    assert forall|i: int| 0 <= i < k implies s[i] != sep by {
        assert(x[i] != sep);
    }
    lemma_find_is(s, sep, k);
    assert(s.take(k) =~= x.take(k));
    if k < x.len() {
        let rest = x.skip(k + 1);
        law_split_adds_up(rest, y, sep);
        assert(s.skip(k + 1) =~= rest + seq![sep] + y);
        assert(split(s, sep) =~= seq![x.take(k)] + (split(rest, sep) + split(y, sep)));
        assert(split(s, sep) =~= split(x, sep) + split(y, sep));
    } else {
        assert(x.take(k) =~= x);
        assert(s.skip(k + 1) =~= y);
        assert(split(s, sep) =~= split(x, sep) + split(y, sep));
    }
}

/// White space around a text does not count.
pub proof fn law_trim_ignores_blanks(s: Seq<char>, c: char)
    requires
        white(c),
    ensures
        trim(seq![c] + s) == trim(s),
        trim(s.push(c)) == trim(s),
{
    assert((seq![c] + s).skip(1) =~= s);
    lemma_trim_push(s, c);
}

proof fn lemma_trim_push(s: Seq<char>, c: char)
    requires
        white(c),
    ensures
        trim(s.push(c)) == trim(s),
    decreases s.len(),
{
    let t = s.push(c);
    if s.len() == 0 {
        assert(t.skip(1) =~= s);
    } else if white(s[0]) {
        assert(t.skip(1) =~= s.skip(1).push(c));
        lemma_trim_push(s.skip(1), c);
    } else {
        assert(t.drop_last() =~= s);
    }
}

/// A text that neither starts nor ends with white space stays as it is.
pub proof fn law_trim_keeps(s: Seq<char>)
    requires
        s.len() == 0 || (!white(s[0]) && !white(s.last())),
    ensures
        trim(s) == s,
{
}

/// What is asked for counts, whatever the environment says, also where it is an
/// empty text; the environment counts where nothing is asked for.
pub proof fn law_preferred(
    asked: Seq<char>,
    environment: Option<Seq<char>>,
    said: Seq<char>,
    common: Seq<char>,
)
    ensures
        preferred(Some(asked), environment, common) == asked,
        preferred(None, Some(said), common) == said,
        preferred(None, None, common) == common,
{
}

} // verus!
