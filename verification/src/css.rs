//! Scanning of CSS text for static `url(...)`, `@import "..."` and
//! `@import url(...)` references.
//!
//! A single scan finds every reference; extraction and rewriting both read
//! its tokens, so they always agree on what a reference is.

use vstd::prelude::*;

use crate::text::{eq_ignore_ascii_case, lit};

verus! {

/// What a CSS reference token is.
#[derive(Debug, Clone, Copy, PartialEq, Eq, Structural)]
pub enum CssTokenKind {
    /// `url("...")` or `url('...')`.
    QuotedUrl,
    /// `url(...)` without quotes.
    BareUrl,
    /// `@import "..."` or `@import '...'`.
    Import,
}

/// A reference found in CSS text; positions are character indices.
#[derive(Debug, Clone, Copy, PartialEq, Eq, Structural)]
pub struct CssToken {
    pub kind: CssTokenKind,
    /// Where `url(` or `@import` begins.
    pub start: usize,
    /// The argument as extraction reads it (before trimming and unquoting).
    pub arg_start: usize,
    pub arg_end: usize,
    /// The characters that rewriting replaces: the URL itself.
    pub span_start: usize,
    pub span_end: usize,
}

/// A token's positions lie within text of length `n`.
pub open spec fn token_wf(t: CssToken, n: nat) -> bool {
    &&& t.start < n
    &&& t.arg_start <= t.arg_end <= n
    &&& t.span_start <= t.span_end <= n
}

/// First index `k >= a` with `k == s.len()` or `p(s[k])`.
pub open spec fn first_from(s: Seq<char>, a: int, p: spec_fn(char) -> bool) -> int
    decreases s.len() - a,
{
    if a >= s.len() {
        s.len() as int
    } else if p(s[a]) {
        a
    } else {
        first_from(s, a + 1, p)
    }
}

pub open spec fn not_url_space(c: char) -> bool {
    !(c == ' ' || c == '\t' || c == '\n' || c == '\r')
}

pub open spec fn not_space_or_tab(c: char) -> bool {
    !(c == ' ' || c == '\t')
}

pub open spec fn is_close_paren(c: char) -> bool {
    c == ')'
}

/// ASCII white space as `u8::is_ascii_whitespace` defines it.
pub open spec fn is_ascii_ws(c: char) -> bool {
    c == ' ' || c == '\t' || c == '\n' || c == '\x0C' || c == '\r'
}

pub open spec fn ends_bare_url(c: char) -> bool {
    c == ')' || is_ascii_ws(c)
}

/// The character classes that scanning searches for.
#[derive(Clone, Copy)]
pub enum CharClass {
    NotUrlSpace,
    NotSpaceOrTab,
    CloseParen,
    BareUrlEnd,
    ImportEnd(char),
}

pub open spec fn in_class(cl: CharClass, c: char) -> bool {
    match cl {
        CharClass::NotUrlSpace => not_url_space(c),
        CharClass::NotSpaceOrTab => not_space_or_tab(c),
        CharClass::CloseParen => is_close_paren(c),
        CharClass::BareUrlEnd => ends_bare_url(c),
        CharClass::ImportEnd(q) => c == q || c == ';' || c == '\n',
    }
}

pub open spec fn class_pred(cl: CharClass) -> spec_fn(char) -> bool {
    |c: char| in_class(cl, c)
}

/// End of a quoted argument opened before `e`: the closing quote `q` or the
/// end of the text, a backslash escaping the character after it.
pub open spec fn quote_end(s: Seq<char>, e: int, q: char) -> int
    decreases s.len() - e,
{
    if e >= s.len() || s[e] == q {
        e
    } else if s[e] == '\\' && e + 1 < s.len() {
        quote_end(s, e + 2, q)
    } else {
        quote_end(s, e + 1, q)
    }
}

/// Where scanning resumes after a comment opened at `i`: past its `*/`, or
/// at the end of the text.
pub open spec fn comment_resume(s: Seq<char>, k: int) -> int
    decreases s.len() - k,
{
    if k + 2 > s.len() {
        s.len() as int
    } else if s[k] == '*' && s[k + 1] == '/' {
        k + 2
    } else {
        comment_resume(s, k + 1)
    }
}

pub open spec fn at_ci(s: Seq<char>, i: int, pat: Seq<char>) -> bool {
    0 <= i && i + pat.len() <= s.len() && eq_ignore_ascii_case(s.subrange(i, i + pat.len()), pat)
}

/// One scanning step at `i < s.len()`: the token found there, if any, and
/// where scanning resumes.
pub open spec fn css_step(s: Seq<char>, i: int) -> (Option<CssToken>, int) {
    if i + 2 <= s.len() && s[i] == '/' && s[i + 1] == '*' {
        (None, comment_resume(s, i + 2))
    } else {
        let url = url_step(s, i);
        if url.0 is Some {
            url
        } else {
            import_step(s, i)
        }
    }
}

/// The `url(` branch of a step: a token and its resumption point, or
/// `(None, _)` when there is no `url(` with a closing `)` at `i`.
pub open spec fn url_step(s: Seq<char>, i: int) -> (Option<CssToken>, int) {
    if at_ci(s, i, "url("@) {
        let a = first_from(s, i + 4, class_pred(CharClass::NotUrlSpace));
        if a < s.len() && (s[a] == '"' || s[a] == '\'') {
            let q = s[a];
            let e = quote_end(s, a + 1, q);
            let e2 = if e < s.len() && s[e] == q {
                e + 1
            } else {
                e
            };
            let close = first_from(s, e2, class_pred(CharClass::CloseParen));
            if close < s.len() {
                (
                    Some(
                        CssToken {
                            kind: CssTokenKind::QuotedUrl,
                            start: i as usize,
                            arg_start: a as usize,
                            arg_end: close as usize,
                            span_start: (a + 1) as usize,
                            span_end: e as usize,
                        },
                    ),
                    close + 1,
                )
            } else {
                (None, i)
            }
        } else {
            let close = first_from(s, a, class_pred(CharClass::CloseParen));
            let b = first_from(s, a, class_pred(CharClass::BareUrlEnd));
            if close < s.len() {
                (
                    Some(
                        CssToken {
                            kind: CssTokenKind::BareUrl,
                            start: i as usize,
                            arg_start: a as usize,
                            arg_end: close as usize,
                            span_start: a as usize,
                            span_end: b as usize,
                        },
                    ),
                    close + 1,
                )
            } else {
                (None, i)
            }
        }
    } else {
        (None, i)
    }
}

/// The `@import` branch of a step (taken when the `url(` branch found no
/// token): a token for a quoted argument, or where scanning resumes without
/// one. An unquoted argument is scanned from its first character, so the
/// `url(...)` of `@import url(...)` is found by the next step.
pub open spec fn import_step(s: Seq<char>, i: int) -> (Option<CssToken>, int) {
    if at_ci(s, i, "@import"@) {
        let a = first_from(s, i + 7, class_pred(CharClass::NotSpaceOrTab));
        if a < s.len() && (s[a] == '"' || s[a] == '\'') {
            let q = s[a];
            let k = first_from(s, a + 1, class_pred(CharClass::ImportEnd(q)));
            if k < s.len() && s[k] == q {
                (
                    Some(
                        CssToken {
                            kind: CssTokenKind::Import,
                            start: i as usize,
                            arg_start: (a + 1) as usize,
                            arg_end: k as usize,
                            span_start: (a + 1) as usize,
                            span_end: k as usize,
                        },
                    ),
                    k + 1,
                )
            } else {
                (None, k + 1)
            }
        } else {
            (None, a)
        }
    } else {
        (None, i + 1)
    }
}

/// The reference tokens of `s` from position `i` on, in order.
pub open spec fn css_tokens_from(s: Seq<char>, i: int) -> Seq<CssToken>
    decreases s.len() + 1 - i,
{
    if i < 0 || i >= s.len() {
        seq![]
    } else {
        let (t, next) = css_step(s, i);
        if next <= i || next > s.len() + 1 {
            seq![]
        } else {
            match t {
                Some(tok) => seq![tok] + css_tokens_from(s, next),
                None => css_tokens_from(s, next),
            }
        }
    }
}

/// The reference tokens of CSS text `s`.
pub open spec fn css_tokens(s: Seq<char>) -> Seq<CssToken> {
    css_tokens_from(s, 0)
}

fn char_in_class(cl: CharClass, c: char) -> (r: bool)
    ensures
        r == in_class(cl, c),
{
    match cl {
        CharClass::NotUrlSpace => !(c == ' ' || c == '\t' || c == '\n' || c == '\r'),
        CharClass::NotSpaceOrTab => !(c == ' ' || c == '\t'),
        CharClass::CloseParen => c == ')',
        CharClass::BareUrlEnd => c == ')' || c == ' ' || c == '\t' || c == '\n' || c == '\x0C' || c
            == '\r',
        CharClass::ImportEnd(q) => c == q || c == ';' || c == '\n',
    }
}

proof fn lemma_first_from_bounds(s: Seq<char>, a: int, p: spec_fn(char) -> bool)
    ensures
        a <= s.len() ==> a <= first_from(s, a, p) <= s.len(),
        a > s.len() ==> first_from(s, a, p) == s.len(),
        first_from(s, a, p) < s.len() ==> p(s[first_from(s, a, p)]),
    decreases s.len() - a,
{
    if a < s.len() && !p(s[a]) {
        lemma_first_from_bounds(s, a + 1, p);
    }
}

/// First index `k >= a` holding a character of class `cl`, or `s.len()`.
fn find_from(s: &Vec<char>, a: usize, cl: CharClass) -> (r: usize)
    requires
        a <= s@.len(),
    ensures
        r as int == first_from(s@, a as int, class_pred(cl)),
        a <= r <= s@.len(),
{
    let mut k = a;
    while k < s.len() && !char_in_class(cl, s[k])
        invariant
            a <= k <= s@.len(),
            first_from(s@, a as int, class_pred(cl)) == first_from(s@, k as int, class_pred(cl)),
        decreases s.len() - k,
    {
        assert(!class_pred(cl)(s@[k as int]));
        k = k + 1;
    }
    if k < s.len() {
        assert(class_pred(cl)(s@[k as int]));
    }
    k
}

fn find_quote_end(s: &Vec<char>, a: usize, q: char) -> (r: usize)
    requires
        a <= s@.len(),
    ensures
        r as int == quote_end(s@, a as int, q),
        a <= r <= s@.len(),
        r < s@.len() ==> s@[r as int] == q,
{
    let mut e = a;
    while e < s.len() && s[e] != q
        invariant
            a <= e <= s@.len(),
            quote_end(s@, a as int, q) == quote_end(s@, e as int, q),
        decreases s.len() - e,
    {
        if s[e] == '\\' && e + 1 < s.len() {
            e = e + 2;
        } else {
            e = e + 1;
        }
    }
    e
}

fn find_comment_resume(s: &Vec<char>, k0: usize) -> (r: usize)
    requires
        k0 <= s@.len(),
    ensures
        r as int == comment_resume(s@, k0 as int),
        k0 <= r <= s@.len(),
{
    let mut k = k0;
    while s.len() >= 2 && k <= s.len() - 2 && !(s[k] == '*' && s[k + 1] == '/')
        invariant
            k0 <= k <= s@.len(),
            comment_resume(s@, k0 as int) == comment_resume(s@, k as int),
        decreases s.len() - k,
    {
        k = k + 1;
    }
    if s.len() >= 2 && k <= s.len() - 2 {
        k + 2
    } else {
        s.len()
    }
}

fn at_ci_exec(s: &Vec<char>, i: usize, pat: &str) -> (r: bool)
    ensures
        r == at_ci(s@, i as int, pat@),
        r ==> i + pat@.len() <= s@.len(),
{
    let p = lit(pat);
    if i > s.len() || p.len() > s.len() - i {
        return false;
    }
    let sub = crate::text::slice_chars(s, i, i + p.len());
    crate::text::eq_ignore_ascii_case_chars(&sub, &p)
}

fn url_step_exec(s: &Vec<char>, i: usize) -> (r: (Option<CssToken>, usize))
    requires
        i < s@.len(),
    ensures
        r.0 == url_step(s@, i as int).0,
        r.0 is Some ==> r.1 as int == url_step(s@, i as int).1 && i < r.1 <= s@.len(),
        r.0 matches Some(t) ==> token_wf(t, s@.len()),
{
    let n = s.len();
    if !at_ci_exec(s, i, "url(") {
        return (None, i);
    }
    proof {
        reveal_strlit("url(");
    }
    let a = find_from(s, i + 4, CharClass::NotUrlSpace);
    if a < s.len() && (s[a] == '"' || s[a] == '\'') {
        let q = s[a];
        let e = find_quote_end(s, a + 1, q);
        let e2 = if e < s.len() && s[e] == q {
            e + 1
        } else {
            e
        };
        let close = find_from(s, e2, CharClass::CloseParen);
        if close < s.len() {
            let tok = CssToken {
                kind: CssTokenKind::QuotedUrl,
                start: i,
                arg_start: a,
                arg_end: close,
                span_start: a + 1,
                span_end: e,
            };
            (Some(tok), close + 1)
        } else {
            (None, i)
        }
    } else {
        let close = find_from(s, a, CharClass::CloseParen);
        let b = find_from(s, a, CharClass::BareUrlEnd);
        if close < s.len() {
            let tok = CssToken {
                kind: CssTokenKind::BareUrl,
                start: i,
                arg_start: a,
                arg_end: close,
                span_start: a,
                span_end: b,
            };
            (Some(tok), close + 1)
        } else {
            (None, i)
        }
    }
}

fn import_step_exec(s: &Vec<char>, i: usize) -> (r: (Option<CssToken>, usize))
    requires
        i < s@.len(),
    ensures
        r.0 == import_step(s@, i as int).0,
        r.0 matches Some(t) ==> token_wf(t, s@.len()),
        i < import_step(s@, i as int).1 <= s@.len() + 1,
        r.1 as int == (if import_step(s@, i as int).1 > s@.len() {
            s@.len() as int
        } else {
            import_step(s@, i as int).1
        }),
{
    let n = s.len();
    if !at_ci_exec(s, i, "@import") {
        return (None, i + 1);
    }
    proof {
        reveal_strlit("@import");
    }
    let a = find_from(s, i + 7, CharClass::NotSpaceOrTab);
    if a < s.len() && (s[a] == '"' || s[a] == '\'') {
        let q = s[a];
        let k = find_from(s, a + 1, CharClass::ImportEnd(q));
        if k < s.len() && s[k] == q {
            let tok = CssToken {
                kind: CssTokenKind::Import,
                start: i,
                arg_start: a + 1,
                arg_end: k,
                span_start: a + 1,
                span_end: k,
            };
            (Some(tok), k + 1)
        } else if k < s.len() {
            (None, k + 1)
        } else {
            (None, s.len())
        }
    } else if a < s.len() {
        (None, a)
    } else {
        (None, s.len())
    }
}

fn css_step_exec(s: &Vec<char>, i: usize) -> (r: (Option<CssToken>, usize))
    requires
        i < s@.len(),
    ensures
        r.0 == css_step(s@, i as int).0,
        r.0 matches Some(t) ==> token_wf(t, s@.len()),
        i < css_step(s@, i as int).1 <= s@.len() + 1,
        r.1 as int == (if css_step(s@, i as int).1 > s@.len() {
            s@.len() as int
        } else {
            css_step(s@, i as int).1
        }),
{
    if i < s.len() - 1 && s[i] == '/' && s[i + 1] == '*' {
        let next = find_comment_resume(s, i + 2);
        return (None, next);
    }
    let url = url_step_exec(s, i);
    if url.0.is_some() {
        return url;
    }
    import_step_exec(s, i)
}

/// The reference tokens of CSS text (see [`css_tokens`]).
pub fn scan_css(s: &Vec<char>) -> (r: Vec<CssToken>)
    ensures
        r@ == css_tokens(s@),
        forall|k: int| 0 <= k < r@.len() ==> token_wf(#[trigger] r@[k], s@.len()),
{
    let mut found: Vec<CssToken> = Vec::new();
    let mut i: usize = 0;
    while i < s.len()
        invariant
            i <= s@.len(),
            found@ + css_tokens_from(s@, i as int) == css_tokens(s@),
            forall|k: int| 0 <= k < found@.len() ==> token_wf(#[trigger] found@[k], s@.len()),
        decreases s@.len() - i,
    {
        let (t, next) = css_step_exec(s, i);
        let ghost spec_next = css_step(s@, i as int).1;
        proof {
            if spec_next > s@.len() {
                assert(css_tokens_from(s@, spec_next) =~= seq![]);
                assert(css_tokens_from(s@, s@.len() as int) =~= seq![]);
            }
        }
        match t {
            Some(tok) => {
                found.push(tok);
                assert(found@ + css_tokens_from(s@, next as int) =~= css_tokens(s@));
            },
            None => {},
        }
        i = next;
    }
    proof {
        assert(css_tokens_from(s@, i as int) =~= seq![]);
    }
    found
}

} // verus!
