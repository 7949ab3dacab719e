//! Character-level text helpers shared by the library.
//!
//! Text is processed as sequences of `char`s; a `String`'s view is its
//! character sequence, so every helper here states its result over that view.

use vstd::prelude::*;
use vstd::std_specs::iter::IteratorSpec;

verus! {

broadcast use vstd::string::axiom_spec_iter, vstd::string::next_postcondition;

/// Collects the characters of `s` into a vector.
pub fn chars_of(s: &str) -> (v: Vec<char>)
    ensures
        v@ == s@,
{
    let mut v: Vec<char> = Vec::new();
    for c in iter: s.chars()
        invariant
            v@ == iter.seq().take(iter.index() as int),
            iter.seq() == s@,
    {
        v.push(c);
    }
    v
}

/// `String` built from a character vector (std's `FromIterator<&char> for String`,
/// which appends the characters in order).
#[verifier::external_body]
pub(crate) fn string_from_chars(v: &Vec<char>) -> (s: String)
    ensures
        s@ == v@,
{
    v.iter().collect()
}

/// Appends every character of `add` to `out`.
pub fn append_chars(out: &mut Vec<char>, add: &Vec<char>)
    ensures
        final(out)@ == old(out)@ + add@,
{
    let mut i: usize = 0;
    while i < add.len()
        invariant
            i <= add.len(),
            out@ == old(out)@ + add@.take(i as int),
        decreases add.len() - i,
    {
        out.push(add[i]);
        i = i + 1;
    }
    assert(add@.take(add.len() as int) == add@);
}

/// Appends the characters of `s` to `out`.
pub fn append_str(out: &mut Vec<char>, s: &str)
    ensures
        final(out)@ == old(out)@ + s@,
{
    let cs = chars_of(s);
    append_chars(out, &cs);
}

/// Whether two character vectors hold the same characters.
pub fn chars_eq(a: &Vec<char>, b: &Vec<char>) -> (r: bool)
    ensures
        r == (a@ == b@),
{
    if a.len() != b.len() {
        return false;
    }
    let mut i: usize = 0;
    while i < a.len()
        invariant
            a.len() == b.len(),
            i <= a.len(),
            forall|k: int| 0 <= k < i ==> a@[k] == b@[k],
        decreases a.len() - i,
    {
        if a[i] != b[i] {
            return false;
        }
        i = i + 1;
    }
    assert(a@ =~= b@);
    true
}

/// Whether two string slices hold the same characters.
pub fn str_eq(a: &str, b: &str) -> (r: bool)
    ensures
        r == (a@ == b@),
{
    let ca = chars_of(a);
    let cb = chars_of(b);
    chars_eq(&ca, &cb)
}

/// The character of a digit value (`0..=15`), lower-case for `10..=15`.
pub open spec fn digit_char(d: nat) -> char {
    if d == 0 {
        '0'
    } else if d == 1 {
        '1'
    } else if d == 2 {
        '2'
    } else if d == 3 {
        '3'
    } else if d == 4 {
        '4'
    } else if d == 5 {
        '5'
    } else if d == 6 {
        '6'
    } else if d == 7 {
        '7'
    } else if d == 8 {
        '8'
    } else if d == 9 {
        '9'
    } else if d == 10 {
        'a'
    } else if d == 11 {
        'b'
    } else if d == 12 {
        'c'
    } else if d == 13 {
        'd'
    } else if d == 14 {
        'e'
    } else {
        'f'
    }
}

/// Decimal rendering of a natural number, without leading zeros.
pub open spec fn decimal(n: nat) -> Seq<char>
    decreases n,
{
    if n < 10 {
        seq![digit_char(n)]
    } else {
        decimal(n / 10) + seq![digit_char(n % 10)]
    }
}

/// Lower-case hexadecimal rendering of a natural number, without leading zeros.
pub open spec fn hex_lower(n: nat) -> Seq<char>
    decreases n,
{
    if n < 16 {
        seq![digit_char(n)]
    } else {
        hex_lower(n / 16) + seq![digit_char(n % 16)]
    }
}

fn digit(d: u32) -> (c: char)
    requires
        d < 16,
    ensures
        c == digit_char(d as nat),
{
    if d == 0 {
        '0'
    } else if d == 1 {
        '1'
    } else if d == 2 {
        '2'
    } else if d == 3 {
        '3'
    } else if d == 4 {
        '4'
    } else if d == 5 {
        '5'
    } else if d == 6 {
        '6'
    } else if d == 7 {
        '7'
    } else if d == 8 {
        '8'
    } else if d == 9 {
        '9'
    } else if d == 10 {
        'a'
    } else if d == 11 {
        'b'
    } else if d == 12 {
        'c'
    } else if d == 13 {
        'd'
    } else if d == 14 {
        'e'
    } else {
        'f'
    }
}

/// Appends the decimal rendering of `n` to `out`.
pub fn push_decimal(out: &mut Vec<char>, n: usize)
    ensures
        final(out)@ == old(out)@ + decimal(n as nat),
    decreases n,
{
    if n >= 10 {
        push_decimal(out, n / 10);
    }
    let d = digit((n % 10) as u32);
    out.push(d);
}

/// Appends the lower-case hexadecimal rendering of `n` to `out`.
pub fn push_hex(out: &mut Vec<char>, n: u32)
    ensures
        final(out)@ == old(out)@ + hex_lower(n as nat),
    decreases n,
{
    if n >= 16 {
        push_hex(out, n / 16);
    }
    let d = digit(n % 16);
    out.push(d);
}

/// Whether `s` begins with `prefix`.
pub open spec fn starts_with(s: Seq<char>, prefix: Seq<char>) -> bool {
    prefix.len() <= s.len() && s.take(prefix.len() as int) == prefix
}

/// Whether `s` ends with `suffix`.
pub open spec fn ends_with(s: Seq<char>, suffix: Seq<char>) -> bool {
    suffix.len() <= s.len() && s.skip(s.len() - suffix.len()) == suffix
}

/// Whether `pat` occurs in `s` at position `i`.
pub open spec fn occurs_at(s: Seq<char>, pat: Seq<char>, i: int) -> bool {
    0 <= i && i + pat.len() <= s.len() && s.subrange(i, i + pat.len()) == pat
}

/// Whether `pat` occurs somewhere in `s`.
pub open spec fn contains_seq(s: Seq<char>, pat: Seq<char>) -> bool {
    exists|i: int| occurs_at(s, pat, i)
}

/// Whether `pat` occurs in `s` at position `i` (executable form of [`occurs_at`]).
pub fn matches_at(s: &Vec<char>, pat: &Vec<char>, i: usize) -> (r: bool)
    ensures
        r == occurs_at(s@, pat@, i as int),
{
    if i > s.len() || pat.len() > s.len() - i {
        return false;
    }
    let mut k: usize = 0;
    while k < pat.len()
        invariant
            i + pat.len() <= s.len(),
            k <= pat.len(),
            forall|m: int| 0 <= m < k ==> s@[i + m] == pat@[m],
        decreases pat.len() - k,
    {
        if s[i + k] != pat[k] {
            assert(s@.subrange(i as int, i + pat.len())[k as int] != pat@[k as int]);
            return false;
        }
        k = k + 1;
    }
    assert(s@.subrange(i as int, i + pat.len()) =~= pat@);
    true
}

pub fn starts_with_chars(s: &Vec<char>, prefix: &Vec<char>) -> (r: bool)
    ensures
        r == starts_with(s@, prefix@),
{
    let r = matches_at(s, prefix, 0);
    assert(s@.subrange(0, prefix@.len() as int) == s@.take(prefix@.len() as int));
    r
}

pub fn ends_with_chars(s: &Vec<char>, suffix: &Vec<char>) -> (r: bool)
    ensures
        r == ends_with(s@, suffix@),
{
    if suffix.len() > s.len() {
        return false;
    }
    let r = matches_at(s, suffix, s.len() - suffix.len());
    assert(s@.subrange(s.len() - suffix.len(), s.len() as int) == s@.skip(s.len() - suffix.len()));
    r
}

/// Whether `pat` occurs somewhere in `s` (executable form of [`contains_seq`]).
pub fn contains_chars(s: &Vec<char>, pat: &Vec<char>) -> (r: bool)
    ensures
        r == contains_seq(s@, pat@),
{
    let mut i: usize = 0;
    loop
        invariant
            i <= s.len(),
            forall|m: int| 0 <= m < i ==> !occurs_at(s@, pat@, m),
        ensures
            forall|m: int| 0 <= m <= s.len() ==> !occurs_at(s@, pat@, m),
        decreases s.len() - i,
    {
        if matches_at(s, pat, i) {
            return true;
        }
        if i == s.len() {
            break;
        }
        i = i + 1;
    }
    false
}

/// ASCII lower-casing of one character.
pub open spec fn ascii_lower(c: char) -> char {
    if 'A' <= c && c <= 'Z' {
        (((c as u32) + 32) as u8) as char
    } else {
        c
    }
}

/// Whether `a` and `b` are equal ignoring ASCII case.
pub open spec fn eq_ignore_ascii_case(a: Seq<char>, b: Seq<char>) -> bool {
    a.len() == b.len() && forall|k: int| 0 <= k < a.len() ==> ascii_lower(#[trigger] a[k]) == ascii_lower(b[k])
}

pub fn lower_char(c: char) -> (r: char)
    ensures
        r == ascii_lower(c),
{
    if 'A' <= c && c <= 'Z' {
        (((c as u32) + 32) as u8) as char
    } else {
        c
    }
}

pub fn eq_ignore_ascii_case_chars(a: &Vec<char>, b: &Vec<char>) -> (r: bool)
    ensures
        r == eq_ignore_ascii_case(a@, b@),
{
    if a.len() != b.len() {
        return false;
    }
    let mut k: usize = 0;
    while k < a.len()
        invariant
            a.len() == b.len(),
            k <= a.len(),
            forall|m: int| 0 <= m < k ==> ascii_lower(#[trigger] a@[m]) == ascii_lower(b@[m]),
        decreases a.len() - k,
    {
        if lower_char(a[k]) != lower_char(b[k]) {
            return false;
        }
        k = k + 1;
    }
    true
}

/// A copy of `s[from..to]`.
pub fn slice_chars(s: &Vec<char>, from: usize, to: usize) -> (r: Vec<char>)
    requires
        from <= to <= s.len(),
    ensures
        r@ == s@.subrange(from as int, to as int),
{
    let mut out: Vec<char> = Vec::new();
    let mut i = from;
    while i < to
        invariant
            from <= i <= to <= s.len(),
            out@ == s@.subrange(from as int, i as int),
        decreases to - i,
    {
        out.push(s[i]);
        i = i + 1;
    }
    out
}

/// Number of bytes of the UTF-8 encoding of `c`.
pub open spec fn utf8_width(c: char) -> nat {
    let u = c as u32;
    if u < 0x80 {
        1
    } else if u < 0x800 {
        2
    } else if u < 0x10000 {
        3
    } else {
        4
    }
}

pub fn utf8_width_of(c: char) -> (r: usize)
    ensures
        r == utf8_width(c),
{
    let u = c as u32;
    if u < 0x80 {
        1
    } else if u < 0x800 {
        2
    } else if u < 0x10000 {
        3
    } else {
        4
    }
}

/// Number of bytes of the UTF-8 encoding of `s`.
pub open spec fn utf8_len(s: Seq<char>) -> nat
    decreases s.len(),
{
    if s.len() == 0 {
        0
    } else {
        utf8_len(s.drop_last()) + utf8_width(s.last())
    }
}

/// The 1-based line and byte column at the end of `s`: lines are counted at
/// each `\n`, and the column counts the UTF-8 bytes since the last one.
pub open spec fn line_col(s: Seq<char>) -> (nat, nat)
    decreases s.len(),
{
    if s.len() == 0 {
        (1, 1)
    } else {
        let (l, c) = line_col(s.drop_last());
        if s.last() == '\n' {
            (l + 1, 1)
        } else {
            (l, c + utf8_width(s.last()))
        }
    }
}

pub proof fn lemma_line_col_bounds(s: Seq<char>)
    ensures
        1 <= line_col(s).0 <= s.len() + 1,
        1 <= line_col(s).1 <= 4 * s.len() + 1,
    decreases s.len(),
{
    if s.len() > 0 {
        lemma_line_col_bounds(s.drop_last());
    }
}

/// The line and byte column of character position `k` of `s` (see [`line_col`]).
pub fn line_col_at(s: &Vec<char>, k: usize) -> (r: (usize, usize))
    requires
        k <= s@.len(),
        4 * s@.len() + 1 <= usize::MAX,
    ensures
        r.0 as nat == line_col(s@.take(k as int)).0,
        r.1 as nat == line_col(s@.take(k as int)).1,
{
    let mut line: usize = 1;
    let mut col: usize = 1;
    let mut i: usize = 0;
    while i < k
        invariant
            i <= k <= s@.len(),
            4 * s@.len() + 1 <= usize::MAX,
            line as nat == line_col(s@.take(i as int)).0,
            col as nat == line_col(s@.take(i as int)).1,
        decreases k - i,
    {
        proof {
            lemma_line_col_bounds(s@.take(i + 1));
        }
        assert(s@.take(i + 1).drop_last() == s@.take(i as int));
        if s[i] == '\n' {
            line = line + 1;
            col = 1;
        } else {
            col = col + utf8_width_of(s[i]);
        }
        i = i + 1;
    }
    (line, col)
}

/// A copy of a character vector.
pub fn copy_chars(s: &Vec<char>) -> (r: Vec<char>)
    ensures
        r@ == s@,
{
    let r = slice_chars(s, 0, s.len());
    assert(s@.subrange(0, s@.len() as int) =~= s@);
    r
}

/// Characters of a string literal, as a vector.
pub fn lit(s: &str) -> (r: Vec<char>)
    ensures
        r@ == s@,
{
    chars_of(s)
}

} // verus!
