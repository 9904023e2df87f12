//! Verified text primitives shared by the parsers: character classes,
//! substring search (case-sensitive and ASCII-case-insensitive), decimal
//! number parsing, whitespace trimming and line splitting.
//!
//! Every executable function is specified against a small recursive spec
//! function over `Seq<char>`, so the parser contracts can speak about the
//! raw text directly.

use vstd::prelude::*;
use vstd::string::*;

verus! {

/// An ASCII decimal digit.
pub open spec fn is_ascii_digit(c: char) -> bool {
    '0' <= c && c <= '9'
}

/// Numeric value of an ASCII decimal digit.
pub open spec fn digit_val(c: char) -> nat {
    (c as nat - '0' as nat) as nat
}

/// Whitespace as the console tools print it.
pub open spec fn is_space(c: char) -> bool {
    c == ' ' || c == '\t' || c == '\r' || c == '\n'
}

/// ASCII-case-insensitive equality of two characters.
pub open spec fn eq_ci(a: char, b: char) -> bool {
    a == b
    || ('A' <= a && a <= 'Z' && 'a' <= b && b <= 'z' && a as int + 32 == b as int)
    || ('a' <= a && a <= 'z' && 'A' <= b && b <= 'Z' && a as int == b as int + 32)
}

/// The pattern `p` occurs in `s` starting at position `i`.
pub open spec fn matches_at(s: Seq<char>, i: int, p: Seq<char>) -> bool {
    0 <= i && i + p.len() <= s.len() && s.subrange(i, i + p.len()) == p
}

/// As `matches_at`, but comparing characters ASCII-case-insensitively.
pub open spec fn matches_at_ci(s: Seq<char>, i: int, p: Seq<char>) -> bool {
    0 <= i && i + p.len() <= s.len() && forall|k: int| 0 <= k < p.len() ==> eq_ci(s[i + k], p[k])
}

/// Position of the first occurrence of `p` in `s` at or after `from`.
pub open spec fn spec_find(s: Seq<char>, p: Seq<char>, from: int) -> Option<int>
    decreases s.len() + 1 - from when 0 <= from
{
    if from + p.len() > s.len() {
        None
    } else if matches_at(s, from, p) {
        Some(from)
    } else {
        spec_find(s, p, from + 1)
    }
}

/// Position of the first case-insensitive occurrence of `p` in `s` at or after `from`.
pub open spec fn spec_find_ci(s: Seq<char>, p: Seq<char>, from: int) -> Option<int>
    decreases s.len() + 1 - from when 0 <= from
{
    if from + p.len() > s.len() {
        None
    } else if matches_at_ci(s, from, p) {
        Some(from)
    } else {
        spec_find_ci(s, p, from + 1)
    }
}

/// `p` occurs somewhere in `s`.
pub open spec fn contains_seq(s: Seq<char>, p: Seq<char>) -> bool {
    spec_find(s, p, 0) is Some
}

/// `p` occurs somewhere in `s`, compared ASCII-case-insensitively.
pub open spec fn contains_ci(s: Seq<char>, p: Seq<char>) -> bool {
    spec_find_ci(s, p, 0) is Some
}



/// Case-insensitive character comparison, executable side.
pub fn char_eq_ci(a: char, b: char) -> (r: bool)
    ensures
        r == eq_ci(a, b),
{
    let au = a as u32;
    let bu = b as u32;
    au == bu
    || (65 <= au && au <= 90 && 97 <= bu && bu <= 122 && au + 32 == bu)
    || (97 <= au && au <= 122 && 65 <= bu && bu <= 90 && au == bu + 32)
}

/// Does `p` occur in `s` at exactly position `i`?
pub fn match_at(s: &str, i: usize, p: &str) -> (r: bool)
    requires
        i <= s@.len(),
    ensures
        r == matches_at(s@, i as int, p@),
{
    let n = s.unicode_len();
    let m = p.unicode_len();
    if m > n - i {
        assert(!matches_at(s@, i as int, p@));
        return false;
    }
    let mut k: usize = 0;
    while k < m
        invariant
            0 <= k <= m,
            i + m <= n,
            n == s@.len(),
            m == p@.len(),
            forall|j: int| 0 <= j < k ==> s@[i + j] == p@[j],
        decreases m - k,
    {
        if s.get_char(i + k) != p.get_char(k) {
            assert(s@.subrange(i as int, i + p@.len()) != p@) by {
                assert(s@.subrange(i as int, i + p@.len())[k as int] != p@[k as int]);
            }
            return false;
        }
        k += 1;
    }
    assert(s@.subrange(i as int, i + p@.len()) =~= p@);
    true
}

/// Does `p` occur in `s` at position `i`, case-insensitively?
pub fn match_at_ci(s: &str, i: usize, p: &str) -> (r: bool)
    requires
        i <= s@.len(),
    ensures
        r == matches_at_ci(s@, i as int, p@),
{
    let n = s.unicode_len();
    let m = p.unicode_len();
    if m > n - i {
        assert(!matches_at_ci(s@, i as int, p@));
        return false;
    }
    let mut k: usize = 0;
    while k < m
        invariant
            0 <= k <= m,
            i + m <= n,
            n == s@.len(),
            m == p@.len(),
            forall|j: int| 0 <= j < k ==> eq_ci(s@[i + j], p@[j]),
        decreases m - k,
    {
        if !char_eq_ci(s.get_char(i + k), p.get_char(k)) {
            return false;
        }
        k += 1;
    }
    true
}

/// First occurrence of `p` in `s` at or after `from`.
pub fn find_from(s: &str, p: &str, from: usize) -> (r: Option<usize>)
    requires
        from <= s@.len(),
    ensures
        match r {
            Some(i) => spec_find(s@, p@, from as int) == Some(i as int) && i + p@.len() <= s@.len(),
            None => spec_find(s@, p@, from as int) is None,
        },
{
    let n = s.unicode_len();
    let m = p.unicode_len();
    if m == 0 {
        proof {
            assert(s@.subrange(from as int, from as int) =~= p@);
        }
        return Some(from);
    }
    let mut i: usize = from;
    loop
        invariant
            from <= i <= n + 1,
            1 <= m,
            n == s@.len(),
            m == p@.len(),
            spec_find(s@, p@, from as int) == spec_find(s@, p@, i as int),
        decreases n + 1 - i,
    {
        if m > n || i > n - m {
            assert(spec_find(s@, p@, i as int) is None);
            return None;
        }
        if match_at(s, i, p) {
            assert(spec_find(s@, p@, i as int) == Some(i as int));
            return Some(i);
        }
        i += 1;
    }
}

/// First case-insensitive occurrence of `p` in `s` at or after `from`.
pub fn find_from_ci(s: &str, p: &str, from: usize) -> (r: Option<usize>)
    requires
        from <= s@.len(),
    ensures
        match r {
            Some(i) => spec_find_ci(s@, p@, from as int) == Some(i as int) && i + p@.len()
                <= s@.len(),
            None => spec_find_ci(s@, p@, from as int) is None,
        },
{
    let n = s.unicode_len();
    let m = p.unicode_len();
    if m == 0 {
        return Some(from);
    }
    let mut i: usize = from;
    loop
        invariant
            from <= i <= n + 1,
            1 <= m,
            n == s@.len(),
            m == p@.len(),
            spec_find_ci(s@, p@, from as int) == spec_find_ci(s@, p@, i as int),
        decreases n + 1 - i,
    {
        if m > n || i > n - m {
            assert(spec_find_ci(s@, p@, i as int) is None);
            return None;
        }
        if match_at_ci(s, i, p) {
            assert(spec_find_ci(s@, p@, i as int) == Some(i as int));
            return Some(i);
        }
        i += 1;
    }
}

/// `p` occurs somewhere in `s`.
pub fn contains_sub(s: &str, p: &str) -> (r: bool)
    ensures
        r == contains_seq(s@, p@),
{
    find_from(s, p, 0).is_some()
}

/// `p` occurs somewhere in `s`, compared ASCII-case-insensitively.
pub fn contains_sub_ci(s: &str, p: &str) -> (r: bool)
    ensures
        r == contains_ci(s@, p@),
{
    find_from_ci(s, p, 0).is_some()
}

/// `s` begins with `p`.
pub fn starts_with_str(s: &str, p: &str) -> (r: bool)
    ensures
        r == matches_at(s@, 0, p@),
{
    match_at(s, 0, p)
}

/// The two strings hold the same characters.
pub fn eq_str(a: &str, b: &str) -> (r: bool)
    ensures
        r == (a@ == b@),
{
    let n = a.unicode_len();
    if n != b.unicode_len() {
        return false;
    }
    let mut k: usize = 0;
    while k < n
        invariant
            0 <= k <= n,
            n == a@.len() == b@.len(),
            forall|j: int| 0 <= j < k ==> a@[j] == b@[j],
        decreases n - k,
    {
        if a.get_char(k) != b.get_char(k) {
            assert(a@ != b@) by {
                assert(a@[k as int] != b@[k as int]);
            }
            return false;
        }
        k += 1;
    }
    assert(a@ =~= b@);
    true
}

/// The two strings are equal up to ASCII case.
pub open spec fn seq_eq_ci(a: Seq<char>, b: Seq<char>) -> bool {
    a.len() == b.len() && forall|j: int| 0 <= j < a.len() ==> eq_ci(a[j], b[j])
}

/// Case-insensitive string equality, executable side.
pub fn eq_str_ci(a: &str, b: &str) -> (r: bool)
    ensures
        r == seq_eq_ci(a@, b@),
{
    let n = a.unicode_len();
    if n != b.unicode_len() {
        return false;
    }
    let mut k: usize = 0;
    while k < n
        invariant
            0 <= k <= n,
            n == a@.len() == b@.len(),
            forall|j: int| 0 <= j < k ==> eq_ci(a@[j], b@[j]),
        decreases n - k,
    {
        if !char_eq_ci(a.get_char(k), b.get_char(k)) {
            return false;
        }
        k += 1;
    }
    true
}


/// Every character of `s` is an ASCII decimal digit.
pub open spec fn all_digits(s: Seq<char>) -> bool {
    forall|i: int| 0 <= i < s.len() ==> is_ascii_digit(s[i])
}

/// Value of a string of decimal digits, most significant first.
pub open spec fn dec_value(s: Seq<char>) -> nat
    decreases s.len(),
{
    if s.len() == 0 {
        0
    } else {
        dec_value(s.drop_last()) * 10 + digit_val(s.last())
    }
}

/// What parsing a whole string as a decimal `u32` yields: the numeric value
/// when the string is one or more digits and the value fits, nothing otherwise.
pub open spec fn spec_parse_u32(s: Seq<char>) -> Option<u32> {
    if s.len() > 0 && all_digits(s) && dec_value(s) <= u32::MAX {
        Some(dec_value(s) as u32)
    } else {
        None
    }
}

pub proof fn lemma_dec_value_snoc(s: Seq<char>, i: int)
    requires
        0 <= i < s.len(),
    ensures
        dec_value(s.subrange(0, i + 1)) == dec_value(s.subrange(0, i)) * 10 + digit_val(s[i]),
{
    let t = s.subrange(0, i + 1);
    assert(t.drop_last() =~= s.subrange(0, i));
    assert(t.last() == s[i]);
}

proof fn lemma_dec_value_mono(s: Seq<char>, i: int)
    requires
        0 <= i <= s.len(),
    ensures
        dec_value(s) >= dec_value(s.subrange(0, i)),
    decreases s.len() - i,
{
    if i == s.len() {
        assert(s.subrange(0, i) =~= s);
    } else {
        lemma_dec_value_snoc(s, i);
        lemma_dec_value_mono(s, i + 1);
    }
}

/// Parses a whole string as a decimal `u32`.
pub fn parse_u32_str(s: &str) -> (r: Option<u32>)
    ensures
        r == spec_parse_u32(s@),
{
    let n = s.unicode_len();
    if n == 0 {
        return None;
    }
    let mut acc: u64 = 0;
    let mut i: usize = 0;
    while i < n
        invariant
            0 <= i <= n,
            0 < n == s@.len(),
            forall|j: int| 0 <= j < i ==> is_ascii_digit(s@[j]),
            acc == dec_value(s@.subrange(0, i as int)),
            acc <= u32::MAX,
        decreases n - i,
    {
        let c = s.get_char(i);
        if c < '0' || c > '9' {
            assert(!all_digits(s@)) by {
                assert(!is_ascii_digit(s@[i as int]));
            }
            return None;
        }
        let d = (c as u32 - 48) as u64;
        proof {
            lemma_dec_value_snoc(s@, i as int);
        }
        acc = acc * 10 + d;
        if acc > 0xffff_ffff {
            proof {
                lemma_dec_value_mono(s@, i + 1 as int);
            }
            return None;
        }
        i += 1;
    }
    assert(s@.subrange(0, n as int) =~= s@);
    Some(acc as u32)
}

/// `s` with leading whitespace removed.
pub open spec fn spec_trim_start(s: Seq<char>) -> Seq<char>
    decreases s.len(),
{
    if s.len() > 0 && is_space(s[0]) {
        spec_trim_start(s.drop_first())
    } else {
        s
    }
}

/// `s` with trailing whitespace removed.
pub open spec fn spec_trim_end(s: Seq<char>) -> Seq<char>
    decreases s.len(),
{
    if s.len() > 0 && is_space(s.last()) {
        spec_trim_end(s.drop_last())
    } else {
        s
    }
}

/// `s` with whitespace removed from both ends.
pub open spec fn spec_trim(s: Seq<char>) -> Seq<char> {
    spec_trim_end(spec_trim_start(s))
}

/// Digit test, executable side.
pub fn is_digit_char(c: char) -> (r: bool)
    ensures
        r == is_ascii_digit(c),
{
    c >= '0' && c <= '9'
}

/// Whitespace test, executable side.
pub fn is_space_char(c: char) -> (r: bool)
    ensures
        r == is_space(c),
{
    c == ' ' || c == '\t' || c == '\r' || c == '\n'
}

/// Removes whitespace from both ends of `s`.
pub fn trim_str<'a>(s: &'a str) -> (r: &'a str)
    ensures
        r@ == spec_trim(s@),
{
    let n = s.unicode_len();
    proof {
        assert(s@.subrange(0, n as int) =~= s@);
    }
    let mut a: usize = 0;
    while a < n && is_space_char(s.get_char(a))
        invariant
            0 <= a <= n,
            n == s@.len(),
            spec_trim_start(s@) == spec_trim_start(s@.subrange(a as int, n as int)),
        decreases n - a,
    {
        proof {
            let t = s@.subrange(a as int, n as int);
            assert(t.drop_first() =~= s@.subrange(a + 1, n as int));
        }
        a += 1;
    }
    proof {
        let t = s@.subrange(a as int, n as int);
        if a < n {
            assert(!is_space(t[0]));
        }
        assert(spec_trim_start(s@) == t);
    }
    let mut b: usize = n;
    while b > a && is_space_char(s.get_char(b - 1))
        invariant
            a <= b <= n,
            n == s@.len(),
            spec_trim_start(s@) == s@.subrange(a as int, n as int),
            spec_trim_end(s@.subrange(a as int, n as int)) == spec_trim_end(
                s@.subrange(a as int, b as int),
            ),
        decreases b,
    {
        proof {
            let u = s@.subrange(a as int, b as int);
            assert(u.last() == s@[b - 1]);
            assert(u.drop_last() =~= s@.subrange(a as int, b - 1));
        }
        b -= 1;
    }
    proof {
        let u = s@.subrange(a as int, b as int);
        if b > a {
            assert(!is_space(u.last()));
        }
        assert(spec_trim(s@) == u);
    }
    s.substring_char(a, b)
}

/// Index of the first newline at or after `pos`, or the length of `s`.
pub open spec fn line_break(s: Seq<char>, pos: int) -> int
    decreases s.len() - pos when 0 <= pos
{
    if pos >= s.len() {
        pos
    } else if s[pos] == '\n' {
        pos
    } else {
        line_break(s, pos + 1)
    }
}

pub proof fn lemma_line_break_bounds(s: Seq<char>, pos: int)
    requires
        0 <= pos <= s.len(),
    ensures
        pos <= line_break(s, pos) <= s.len(),
    decreases s.len() - pos,
{
    if pos < s.len() && s[pos] != '\n' {
        lemma_line_break_bounds(s, pos + 1);
    }
}

/// A line body with one trailing carriage return removed.
pub open spec fn strip_cr(t: Seq<char>) -> Seq<char> {
    if t.len() > 0 && t.last() == '\r' {
        t.drop_last()
    } else {
        t
    }
}

/// The lines of `s` from position `pos` on: split at `'\n'`, one trailing
/// `'\r'` removed from each piece, no empty piece after a final newline.
pub open spec fn spec_lines_from(s: Seq<char>, pos: int) -> Seq<Seq<char>>
    decreases s.len() - pos when 0 <= pos <= s.len() via spec_lines_from_dec
{
    if pos >= s.len() {
        Seq::empty()
    } else {
        let k = line_break(s, pos);
        if k >= s.len() {
            seq![strip_cr(s.subrange(pos, s.len() as int))]
        } else {
            seq![strip_cr(s.subrange(pos, k))] + spec_lines_from(s, k + 1)
        }
    }
}

#[via_fn]
proof fn spec_lines_from_dec(s: Seq<char>, pos: int) {
    if pos < s.len() {
        lemma_line_break_bounds(s, pos);
    }
}

/// The lines of `s`, as the console tools print them.
pub open spec fn spec_lines(s: Seq<char>) -> Seq<Seq<char>> {
    spec_lines_from(s, 0)
}

/// Splits `s` into lines: at `'\n'`, dropping one trailing `'\r'` per line
/// and the empty piece after a final newline.
pub fn split_lines<'a>(s: &'a str) -> (r: Vec<&'a str>)
    ensures
        r@.len() == spec_lines(s@).len(),
        forall|i: int| 0 <= i < r@.len() ==> r@[i]@ == spec_lines(s@)[i],
{
    let n = s.unicode_len();
    let mut r: Vec<&'a str> = Vec::new();
    let mut pos: usize = 0;
    while pos < n
        invariant
            0 <= pos <= n,
            n == s@.len(),
            spec_lines(s@) =~= r@.map_values(|t: &'a str| t@) + spec_lines_from(s@, pos as int),
        decreases n - pos,
    {
        let ghost start = pos as int;
        let mut j: usize = pos;
        while j < n && s.get_char(j) != '\n'
            invariant
                pos <= j <= n,
                n == s@.len(),
                line_break(s@, pos as int) == line_break(s@, j as int),
            decreases n - j,
        {
            j += 1;
        }
        proof {
            assert(line_break(s@, pos as int) == j);
        }
        let mut e: usize = j;
        if e > pos && s.get_char(e - 1) == '\r' {
            e -= 1;
        }
        let piece = s.substring_char(pos, e);
        proof {
            assert(piece@ =~= strip_cr(s@.subrange(pos as int, j as int)));
        }
        r.push(piece);
        if j < n {
            pos = j + 1;
        } else {
            pos = n;
        }
        proof {
            if j < n {
                assert(spec_lines_from(s@, start) =~= seq![piece@] + spec_lines_from(
                    s@,
                    pos as int,
                ));
            } else {
                assert(spec_lines_from(s@, start) =~= seq![piece@]);
            }
        }
    }
    r
}

/// Index of the first non-whitespace character at or after `pos`.
pub open spec fn skip_ws(s: Seq<char>, pos: int) -> int
    decreases s.len() - pos when 0 <= pos
{
    if pos >= s.len() {
        pos
    } else if is_space(s[pos]) {
        skip_ws(s, pos + 1)
    } else {
        pos
    }
}


/// Skips whitespace, executable side.
pub fn skip_ws_exec(s: &str, pos: usize) -> (r: usize)
    requires
        pos <= s@.len(),
    ensures
        r == skip_ws(s@, pos as int),
        pos <= r <= s@.len(),
{
    let n = s.unicode_len();
    let mut i: usize = pos;
    while i < n && is_space_char(s.get_char(i))
        invariant
            pos <= i <= n,
            n == s@.len(),
            skip_ws(s@, pos as int) == skip_ws(s@, i as int),
        decreases n - i,
    {
        i += 1;
    }
    i
}

/// Index of the first non-digit character at or after `pos`.
pub open spec fn digits_end(s: Seq<char>, pos: int) -> int
    decreases s.len() - pos when 0 <= pos
{
    if pos >= s.len() {
        pos
    } else if is_ascii_digit(s[pos]) {
        digits_end(s, pos + 1)
    } else {
        pos
    }
}


/// Finds the end of the digit run starting at `pos`, executable side.
pub fn digits_end_exec(s: &str, pos: usize) -> (r: usize)
    requires
        pos <= s@.len(),
    ensures
        r == digits_end(s@, pos as int),
        pos <= r <= s@.len(),
{
    let n = s.unicode_len();
    let mut i: usize = pos;
    while i < n && is_digit_char(s.get_char(i))
        invariant
            pos <= i <= n,
            n == s@.len(),
            digits_end(s@, pos as int) == digits_end(s@, i as int),
        decreases n - i,
    {
        i += 1;
    }
    i
}

/// Copies the characters `a..b` of `s` into an owned string.
pub fn substr_string(s: &str, a: usize, b: usize) -> (r: String)
    requires
        a <= b <= s@.len(),
    ensures
        r@ == s@.subrange(a as int, b as int),
{
    String::from_str(s.substring_char(a, b))
}

/// The view of an optional owned string.
pub open spec fn opt_str_view(o: Option<String>) -> Option<Seq<char>> {
    match o {
        Some(s) => Some(s@),
        None => None,
    }
}

/// Relies on `String::push`: appends the given character to the end of the string.
#[verifier::external_body]
pub(crate) fn push_char(s: &mut String, c: char)
    ensures
        final(s)@ == old(s)@.push(c),
{
    s.push(c);
}

/// Index of the first occurrence of `sep` at or after `pos`, or the length of `s`.
pub open spec fn sep_break(s: Seq<char>, sep: char, pos: int) -> int
    decreases s.len() - pos when 0 <= pos
{
    if pos >= s.len() {
        pos
    } else if s[pos] == sep {
        pos
    } else {
        sep_break(s, sep, pos + 1)
    }
}

pub proof fn lemma_sep_break_bounds(s: Seq<char>, sep: char, pos: int)
    requires
        0 <= pos <= s.len(),
    ensures
        pos <= sep_break(s, sep, pos) <= s.len(),
    decreases s.len() - pos,
{
    if pos < s.len() && s[pos] != sep {
        lemma_sep_break_bounds(s, sep, pos + 1);
    }
}

/// The pieces of `s` from `pos` on, split at `sep`.  Unlike lines, a
/// trailing separator yields a final empty piece, and an empty string is
/// one empty piece.
pub open spec fn spec_split_from(s: Seq<char>, sep: char, pos: int) -> Seq<Seq<char>>
    decreases s.len() + 1 - pos when 0 <= pos <= s.len() via spec_split_from_dec
{
    let k = sep_break(s, sep, pos);
    if k >= s.len() {
        seq![s.subrange(pos, s.len() as int)]
    } else {
        seq![s.subrange(pos, k)] + spec_split_from(s, sep, k + 1)
    }
}

#[via_fn]
proof fn spec_split_from_dec(s: Seq<char>, sep: char, pos: int) {
    lemma_sep_break_bounds(s, sep, pos);
}

/// The pieces of `s` split at `sep`.
pub open spec fn spec_split(s: Seq<char>, sep: char) -> Seq<Seq<char>> {
    spec_split_from(s, sep, 0)
}

/// Splits `s` at every occurrence of `sep`.
pub fn split_str<'a>(s: &'a str, sep: char) -> (r: Vec<&'a str>)
    ensures
        r@.len() == spec_split(s@, sep).len(),
        forall|i: int| 0 <= i < r@.len() ==> r@[i]@ == spec_split(s@, sep)[i],
{
    let n = s.unicode_len();
    let mut r: Vec<&'a str> = Vec::new();
    let mut pos: usize = 0;
    loop
        invariant
            0 <= pos <= n,
            n == s@.len(),
            spec_split(s@, sep) =~= r@.map_values(|t: &'a str| t@) + spec_split_from(
                s@,
                sep,
                pos as int,
            ),
        decreases n - pos,
    {
        let ghost start = pos as int;
        let mut j: usize = pos;
        while j < n && s.get_char(j) != sep
            invariant
                pos <= j <= n,
                n == s@.len(),
                sep_break(s@, sep, pos as int) == sep_break(s@, sep, j as int),
            decreases n - j,
        {
            j += 1;
        }
        proof {
            assert(sep_break(s@, sep, start) == j);
        }
        let piece = s.substring_char(pos, j);
        r.push(piece);
        if j < n {
            pos = j + 1;
            proof {
                assert(spec_split_from(s@, sep, start) =~= seq![piece@] + spec_split_from(
                    s@,
                    sep,
                    pos as int,
                ));
            }
        } else {
            proof {
                assert(spec_split_from(s@, sep, start) =~= seq![piece@]);
                assert(spec_split(s@, sep) =~= r@.map_values(|t: &'a str| t@));
            }
            return r;
        }
    }
}

/// An ASCII letter or digit.
pub open spec fn is_alnum(c: char) -> bool {
    ('a' <= c && c <= 'z') || ('A' <= c && c <= 'Z') || is_ascii_digit(c)
}

/// An ASCII hexadecimal digit.
pub open spec fn is_hex_digit(c: char) -> bool {
    is_ascii_digit(c) || ('a' <= c && c <= 'f') || ('A' <= c && c <= 'F')
}

/// Letter-or-digit test, executable side.
pub fn is_alnum_char(c: char) -> (r: bool)
    ensures
        r == is_alnum(c),
{
    (c >= 'a' && c <= 'z') || (c >= 'A' && c <= 'Z') || (c >= '0' && c <= '9')
}

/// Hexadecimal-digit test, executable side.
pub fn is_hex_char(c: char) -> (r: bool)
    ensures
        r == is_hex_digit(c),
{
    (c >= '0' && c <= '9') || (c >= 'a' && c <= 'f') || (c >= 'A' && c <= 'F')
}

} // verus!

