//! HTML tokens as plain data, taken from `html5gum`'s tokenizer, and the
//! conversion of its byte offsets into character positions.

use vstd::prelude::*;

use vstd::utf8::{decode_utf8, encode_utf8, is_char_boundary, valid_utf8};

use crate::css::CssToken;
use crate::layout::{
    css_position_limits, css_references, extract_references_from_css, reference_view,
    reference_views, rewrite_css_chars, rewrite_reference, rewritten_css, rewritten_reference,
    trim_chars, trimmed, ExtractedReference, ReferenceSpec,
};
use crate::project::{ProjectFile, ProjectTree};
use crate::text::{append_chars, append_str, chars_eq, chars_of, string_from_chars};

verus! {

/// An HTML start tag: its name and attributes as bytes (names lower-cased by
/// the tokenizer, attributes in name order), and its byte span.
#[derive(Debug, Clone, PartialEq, Eq)]
pub struct HtmlStartTag {
    pub name: Vec<u8>,
    pub self_closing: bool,
    pub attributes: Vec<(Vec<u8>, Vec<u8>)>,
    pub start: usize,
    pub end: usize,
}

/// An HTML end tag: its name as bytes and its byte span.
#[derive(Debug, Clone, PartialEq, Eq)]
pub struct HtmlEndTag {
    pub name: Vec<u8>,
    pub start: usize,
    pub end: usize,
}

/// A token of the HTML tokenizer.
#[derive(Debug, Clone, PartialEq, Eq)]
pub enum HtmlToken {
    Start(HtmlStartTag),
    End(HtmlEndTag),
    /// Text, comments, doctypes and tokenizer errors.
    Other,
}

/// A token over plain sequences.
pub enum HtmlTokenSpec {
    Start {
        name: Seq<u8>,
        self_closing: bool,
        attributes: Seq<(Seq<u8>, Seq<u8>)>,
        start: usize,
        end: usize,
    },
    End { name: Seq<u8>, start: usize, end: usize },
    Other,
}

pub open spec fn attribute_views(a: Seq<(Vec<u8>, Vec<u8>)>) -> Seq<(Seq<u8>, Seq<u8>)> {
    a.map_values(|p: (Vec<u8>, Vec<u8>)| (p.0@, p.1@))
}

pub open spec fn token_view(t: HtmlToken) -> HtmlTokenSpec {
    match t {
        HtmlToken::Start(s) => HtmlTokenSpec::Start {
            name: s.name@,
            self_closing: s.self_closing,
            attributes: attribute_views(s.attributes@),
            start: s.start,
            end: s.end,
        },
        HtmlToken::End(e) => HtmlTokenSpec::End { name: e.name@, start: e.start, end: e.end },
        HtmlToken::Other => HtmlTokenSpec::Other,
    }
}

pub open spec fn token_views(s: Seq<HtmlToken>) -> Seq<HtmlTokenSpec> {
    s.map_values(|t: HtmlToken| token_view(t))
}

/// The token stream that `html5gum` produces for a text, with spans measured
/// in bytes.
pub uninterp spec fn html5gum_tokens(content: Seq<char>) -> Seq<HtmlTokenSpec>;

/// Tokenizes HTML text with `html5gum::Tokenizer` (default emitter, `usize`
/// spans). Each token is converted one for one: start and end tags keep their
/// name, attributes, self-closing flag and span; every other token becomes
/// `Other`. The result is whatever the tokenizer produces for `content`.
#[verifier::external_body]
pub(crate) fn tokenize_html(content: &str) -> (r: Vec<HtmlToken>)
    ensures
        token_views(r@) == html5gum_tokens(content@),
{
    let emitter = html5gum::DefaultEmitter::<usize>::new_with_span();
    html5gum::Tokenizer::new_with_emitter(content, emitter).map(|token| match token {
        Ok(html5gum::Token::StartTag(t)) => HtmlToken::Start(HtmlStartTag {
            attributes: t.attributes.into_iter().map(|(k, v)| (k.0, v.value.0)).collect(),
            name: t.name.0,
            self_closing: t.self_closing,
            start: t.span.start,
            end: t.span.end,
        }),
        Ok(html5gum::Token::EndTag(t)) => HtmlToken::End(HtmlEndTag { name: t.name.0, start: t.span.start, end: t.span.end }),
        _ => HtmlToken::Other,
    }).collect()
}

// ---------------------------------------------------------------------------
// Text addressed by byte offsets
// ---------------------------------------------------------------------------

/// The 1-based line and column after the bytes `b`: a line per `\n` byte, a
/// column per other byte.
pub open spec fn byte_line_col(b: Seq<u8>) -> (nat, nat)
    decreases b.len(),
{
    if b.len() == 0 {
        (1, 1)
    } else {
        let (l, c) = byte_line_col(b.drop_last());
        if b.last() == 10u8 {
            (l + 1, 1)
        } else {
            (l, c + 1)
        }
    }
}

/// The line and column of byte offset `off` of text `s`; an offset past the
/// end counts as the end.
pub open spec fn line_col_of_offset(s: Seq<char>, off: nat) -> (nat, nat) {
    let b = encode_utf8(s);
    byte_line_col(b.take(if off < b.len() { off as int } else { b.len() as int }))
}

proof fn lemma_byte_line_col_bounds(b: Seq<u8>)
    ensures
        1 <= byte_line_col(b).0 <= b.len() + 1,
        1 <= byte_line_col(b).1 <= b.len() + 1,
    decreases b.len(),
{
    if b.len() > 0 {
        lemma_byte_line_col_bounds(b.drop_last());
    }
}

/// Line and column of a byte offset of `content` (see [`line_col_of_offset`]).
pub fn offset_line_col(content: &str, off: usize) -> (r: (usize, usize))
    requires
        encode_utf8(content@).len() < usize::MAX,
    ensures
        r.0 as nat == line_col_of_offset(content@, off as nat).0,
        r.1 as nat == line_col_of_offset(content@, off as nat).1,
{
    let bytes: &[u8] = content.as_bytes();
    let n: usize = if off < bytes.len() {
        off
    } else {
        bytes.len()
    };
    let mut line: usize = 1;
    let mut col: usize = 1;
    let mut i: usize = 0;
    while i < n
        invariant
            i <= n <= bytes@.len(),
            bytes@.len() < usize::MAX,
            line as nat == byte_line_col(bytes@.take(i as int)).0,
            col as nat == byte_line_col(bytes@.take(i as int)).1,
        decreases n - i,
    {
        proof {
            lemma_byte_line_col_bounds(bytes@.take(i as int));
        }
        assert(bytes@.take(i + 1).drop_last() == bytes@.take(i as int));
        if bytes[i] == 10u8 {
            line = line + 1;
            col = 1;
        } else {
            col = col + 1;
        }
        i = i + 1;
    }
    (line, col)
}

/// Whether `a..b` is a range of byte offsets of `s` that starts and ends on
/// character boundaries.
pub open spec fn on_boundaries(s: Seq<char>, a: int, b: int) -> bool {
    &&& 0 <= a <= b
    &&& is_char_boundary(encode_utf8(s), a)
    &&& is_char_boundary(encode_utf8(s), b)
}

/// The text between byte offsets `a` and `b` of `s`.
pub open spec fn text_between(s: Seq<char>, a: int, b: int) -> Seq<char> {
    decode_utf8(encode_utf8(s).subrange(a, b))
}

pub fn boundaries_check(content: &str, a: usize, b: usize) -> (r: bool)
    ensures
        r == on_boundaries(content@, a as int, b as int),
{
    a <= b && content.is_char_boundary(a) && content.is_char_boundary(b)
}

proof fn lemma_boundary_in_rest(bytes: Seq<u8>, a: int, b: int)
    requires
        valid_utf8(bytes),
        0 <= a <= b,
        is_char_boundary(bytes, a),
        is_char_boundary(bytes, b),
    ensures
        b <= bytes.len(),
        valid_utf8(bytes.subrange(a, bytes.len() as int)),
        is_char_boundary(bytes.subrange(a, bytes.len() as int), b - a),
{
    broadcast use vstd::utf8::group_utf8_lib;

    let rest = bytes.subrange(a, bytes.len() as int);
    reveal_with_fuel(is_char_boundary, 1);
    assert(b <= bytes.len());
    assert(valid_utf8(rest));
    if b == a {
    } else if b == bytes.len() {
        assert(is_char_boundary(rest, rest.len() as int));
    } else {
        assert(rest[b - a] == bytes[b]);
        assert(is_char_boundary(bytes, b) <==> !vstd::utf8::is_continuation_byte(bytes[b]));
        assert(is_char_boundary(rest, b - a) <==> !vstd::utf8::is_continuation_byte(rest[b - a]));
    }
}

/// The text between two byte offsets on character boundaries.
pub fn text_slice<'a>(content: &'a str, a: usize, b: usize) -> (r: &'a str)
    requires
        on_boundaries(content@, a as int, b as int),
    ensures
        r@ == text_between(content@, a as int, b as int),
        encode_utf8(r@) == encode_utf8(content@).subrange(a as int, b as int),
{
    broadcast use vstd::utf8::group_utf8_lib;

    proof {
        lemma_boundary_in_rest(encode_utf8(content@), a as int, b as int);
    }
    let (_head, rest) = content.split_at(a);
    let (mid, _tail) = rest.split_at(b - a);
    assert(encode_utf8(mid@) =~= encode_utf8(content@).subrange(a as int, b as int));
    mid
}

/// The text of an attribute value: its bytes decoded, or nothing when they
/// are not valid UTF-8.
pub open spec fn attribute_text(v: Seq<u8>) -> Seq<char> {
    if valid_utf8(v) {
        decode_utf8(v)
    } else {
        seq![]
    }
}

/// Decodes bytes with `std::str::from_utf8`: the text they encode when they
/// are valid UTF-8, and `None` otherwise.
#[verifier::external_body]
pub(crate) fn decode_text(bytes: &Vec<u8>) -> (r: Option<String>)
    ensures
        match r {
            Some(t) => valid_utf8(bytes@) && t@ == decode_utf8(bytes@),
            None => !valid_utf8(bytes@),
        },
{
    match std::str::from_utf8(bytes) {
        Ok(t) => Some(t.to_owned()),
        Err(_) => None,
    }
}

// ---------------------------------------------------------------------------
// Tag and attribute names
// ---------------------------------------------------------------------------

/// ASCII lower case of a byte.
pub open spec fn lower_byte(b: u8) -> u8 {
    if 65 <= b <= 90 {
        (b + 32) as u8
    } else {
        b
    }
}

/// Whether two byte strings are equal, ignoring ASCII case.
pub open spec fn bytes_eq_ci(a: Seq<u8>, b: Seq<u8>) -> bool {
    &&& a.len() == b.len()
    &&& forall|i: int| 0 <= i < a.len() ==> lower_byte(#[trigger] a[i]) == lower_byte(b[i])
}

/// Whether a name equals a word, ignoring ASCII case.
pub open spec fn name_is(name: Seq<u8>, word: Seq<char>) -> bool {
    bytes_eq_ci(name, encode_utf8(word))
}

fn lower_byte_of(b: u8) -> (r: u8)
    ensures
        r == lower_byte(b),
{
    if 65 <= b && b <= 90 {
        b + 32
    } else {
        b
    }
}

/// Whether bytes `j..k` of `b` equal `target`, ignoring ASCII case.
fn range_eq_ci(b: &[u8], j: usize, k: usize, target: &[u8]) -> (r: bool)
    requires
        j <= k <= b@.len(),
    ensures
        r == bytes_eq_ci(b@.subrange(j as int, k as int), target@),
{
    if k - j != target.len() {
        return false;
    }
    let mut i: usize = 0;
    while i < target.len()
        invariant
            j <= k <= b@.len(),
            k - j == target@.len(),
            i <= target@.len(),
            forall|x: int| 0 <= x < i ==> lower_byte(#[trigger] b@.subrange(j as int, k as int)[x])
                == lower_byte(target@[x]),
        decreases target@.len() - i,
    {
        if lower_byte_of(b[j + i]) != lower_byte_of(target[i]) {
            assert(lower_byte(b@.subrange(j as int, k as int)[i as int]) != lower_byte(
                target@[i as int],
            ));
            return false;
        }
        i = i + 1;
    }
    true
}

/// Whether `name` equals `word`, ignoring ASCII case (see [`name_is`]).
pub fn name_matches(name: &Vec<u8>, word: &str) -> (r: bool)
    ensures
        r == name_is(name@, word@),
{
    let n: &[u8] = name.as_slice();
    let r = range_eq_ci(n, 0, n.len(), word.as_bytes());
    assert(n@.subrange(0, n@.len() as int) == name@);
    r
}

/// Whether an attribute names a resource: `href`, `src` or `poster`.
pub open spec fn is_reference_attribute(name: Seq<u8>) -> bool {
    name_is(name, "href"@) || name_is(name, "src"@) || name_is(name, "poster"@)
}

fn reference_attribute(name: &Vec<u8>) -> (r: bool)
    ensures
        r == is_reference_attribute(name@),
{
    name_matches(name, "href") || name_matches(name, "src") || name_matches(name, "poster")
}

// ---------------------------------------------------------------------------
// Attribute values in tag text
// ---------------------------------------------------------------------------

/// Classes of bytes that the tag scanner skips over.
#[derive(Clone, Copy)]
pub enum ByteClass {
    /// ASCII white space (`u8::is_ascii_whitespace`).
    Space,
    /// Bytes of a tag name or an unquoted value: not white space, `>` or `/`.
    Word,
    /// Bytes of an attribute name: word bytes other than `=`.
    AttributeName,
    /// Bytes other than the given quote.
    NotQuote(u8),
}

pub open spec fn is_ascii_space(b: u8) -> bool {
    b == 32 || b == 9 || b == 10 || b == 12 || b == 13
}

pub open spec fn in_byte_class(c: ByteClass, b: u8) -> bool {
    match c {
        ByteClass::Space => is_ascii_space(b),
        ByteClass::Word => !is_ascii_space(b) && b != 62 && b != 47,
        ByteClass::AttributeName => !is_ascii_space(b) && b != 62 && b != 47 && b != 61,
        ByteClass::NotQuote(q) => b != q,
    }
}

/// The first index from `i` on whose byte is not in class `c`, or the end.
pub open spec fn skip_class(b: Seq<u8>, i: int, c: ByteClass) -> int
    decreases b.len() - i,
{
    if 0 <= i < b.len() && in_byte_class(c, b[i]) {
        skip_class(b, i + 1, c)
    } else {
        i
    }
}

pub proof fn lemma_skip_class(b: Seq<u8>, i: int, c: ByteClass)
    requires
        0 <= i <= b.len(),
    ensures
        i <= skip_class(b, i, c) <= b.len(),
        i < b.len() && in_byte_class(c, b[i]) ==> i < skip_class(b, i, c),
    decreases b.len() - i,
{
    if i < b.len() && in_byte_class(c, b[i]) {
        lemma_skip_class(b, i + 1, c);
    }
}

/// Where the attributes of tag text `b` begin: after `<`, an optional `/` and
/// the tag name.
pub open spec fn tag_name_end(b: Seq<u8>) -> int {
    let i0: int = if 0 < b.len() && b[0] == 60u8 { 1 } else { 0 };
    let i1: int = if i0 < b.len() && b[i0] == 47u8 { i0 + 1 } else { i0 };
    skip_class(b, i1, ByteClass::Word)
}

/// The value span of the first attribute from index `i` of tag text `b` whose
/// name equals `target` (ignoring ASCII case): the bytes inside its quotes, or
/// its unquoted word. Attributes without `=` are passed over, and the scan
/// stops at `>`, `/` or the end.
pub open spec fn attribute_scan(b: Seq<u8>, i: int, target: Seq<u8>) -> Option<(int, int)>
    decreases b.len() - i,
{
    if i < 0 || i > b.len() {
        None
    } else {
        let j = skip_class(b, i, ByteClass::Space);
        proof {
            lemma_skip_class(b, i, ByteClass::Space);
        }
        if j >= b.len() || b[j] == 62u8 || b[j] == 47u8 {
            None
        } else {
            let k = skip_class(b, j, ByteClass::AttributeName);
            let m = skip_class(b, k, ByteClass::Space);
            let named = bytes_eq_ci(b.subrange(j, k), target);
            proof {
                lemma_skip_class(b, j, ByteClass::AttributeName);
                lemma_skip_class(b, k, ByteClass::Space);
            }
            if m < b.len() && b[m] == 61u8 {
                let v = skip_class(b, m + 1, ByteClass::Space);
                proof {
                    lemma_skip_class(b, m + 1, ByteClass::Space);
                }
                if v < b.len() && (b[v] == 34u8 || b[v] == 39u8) {
                    let e = skip_class(b, v + 1, ByteClass::NotQuote(b[v]));
                    proof {
                        lemma_skip_class(b, v + 1, ByteClass::NotQuote(b[v]));
                    }
                    if named {
                        Some((v + 1, e))
                    } else {
                        attribute_scan(b, if e < b.len() { e + 1 } else { e }, target)
                    }
                } else {
                    let e = skip_class(b, v, ByteClass::Word);
                    proof {
                        lemma_skip_class(b, v, ByteClass::Word);
                    }
                    if named {
                        Some((v, e))
                    } else {
                        attribute_scan(b, e, target)
                    }
                }
            } else {
                attribute_scan(b, m, target)
            }
        }
    }
}

/// The value span of attribute `target` in tag text `b` (see
/// [`attribute_scan`]).
pub open spec fn attribute_value_span(b: Seq<u8>, target: Seq<u8>) -> Option<(int, int)> {
    attribute_scan(b, tag_name_end(b), target)
}

fn in_class(c: ByteClass, b: u8) -> (r: bool)
    ensures
        r == in_byte_class(c, b),
{
    let space = b == 32 || b == 9 || b == 10 || b == 12 || b == 13;
    match c {
        ByteClass::Space => space,
        ByteClass::Word => !space && b != 62 && b != 47,
        ByteClass::AttributeName => !space && b != 62 && b != 47 && b != 61,
        ByteClass::NotQuote(q) => b != q,
    }
}

fn skip_bytes(b: &[u8], i: usize, c: ByteClass) -> (r: usize)
    requires
        i <= b@.len(),
    ensures
        r == skip_class(b@, i as int, c),
        i <= r <= b@.len(),
{
    proof {
        lemma_skip_class(b@, i as int, c);
    }
    let mut k: usize = i;
    while k < b.len() && in_class(c, b[k])
        invariant
            i <= k <= b@.len(),
            skip_class(b@, k as int, c) == skip_class(b@, i as int, c),
        decreases b@.len() - k,
    {
        k = k + 1;
    }
    k
}

/// Finds the value span of attribute `target` in the text of one tag: the
/// byte offsets, within the tag text, of the value inside its quotes or of
/// its unquoted word (see [`attribute_value_span`]).
pub fn find_attribute_value_span(tag_text: &str, target: &[u8]) -> (r: Option<(usize, usize)>)
    ensures
        match r {
            Some((a, e)) => attribute_value_span(encode_utf8(tag_text@), target@) == Some(
                (a as int, e as int),
            ) && a <= e <= encode_utf8(tag_text@).len(),
            None => attribute_value_span(encode_utf8(tag_text@), target@) is None,
        },
{
    let b: &[u8] = tag_text.as_bytes();
    let len = b.len();
    let mut i: usize = 0;
    if i < len && b[i] == 60u8 {
        i = i + 1;
    }
    if i < len && b[i] == 47u8 {
        i = i + 1;
    }
    i = skip_bytes(b, i, ByteClass::Word);
    assert(i as int == tag_name_end(b@));
    loop
        invariant
            i <= b@.len() == len,
            b@ == encode_utf8(tag_text@),
            attribute_scan(b@, i as int, target@) == attribute_value_span(b@, target@),
        decreases b@.len() - i,
    {
        let j = skip_bytes(b, i, ByteClass::Space);
        proof {
            lemma_skip_class(b@, i as int, ByteClass::Space);
        }
        if j >= len || b[j] == 62u8 || b[j] == 47u8 {
            return None;
        }
        let k = skip_bytes(b, j, ByteClass::AttributeName);
        proof {
            lemma_skip_class(b@, j as int, ByteClass::AttributeName);
        }
        let m = skip_bytes(b, k, ByteClass::Space);
        proof {
            lemma_skip_class(b@, k as int, ByteClass::Space);
        }
        let named = range_eq_ci(b, j, k, target);
        if m < len && b[m] == 61u8 {
            let v = skip_bytes(b, m + 1, ByteClass::Space);
            proof {
                lemma_skip_class(b@, m + 1, ByteClass::Space);
            }
            if v < len && (b[v] == 34u8 || b[v] == 39u8) {
                let e = skip_bytes(b, v + 1, ByteClass::NotQuote(b[v]));
                proof {
                    lemma_skip_class(b@, v + 1, ByteClass::NotQuote(b[v as int]));
                }
                if named {
                    return Some((v + 1, e));
                }
                i = if e < len {
                    e + 1
                } else {
                    e
                };
            } else {
                let e = skip_bytes(b, v, ByteClass::Word);
                proof {
                    lemma_skip_class(b@, v as int, ByteClass::Word);
                }
                if named {
                    return Some((v, e));
                }
                i = e;
            }
        } else {
            i = m;
        }
    }
}

// ---------------------------------------------------------------------------
// Reference extraction from HTML
// ---------------------------------------------------------------------------

/// The references that the attributes of one start tag yield, the tag
/// starting at `line`/`col`: the trimmed value of each `href`, `src` and
/// `poster` attribute that is not empty, and the CSS references of a `style`
/// attribute.
pub open spec fn attribute_references(
    attrs: Seq<(Seq<u8>, Seq<u8>)>,
    source: Seq<char>,
    line: nat,
    col: nat,
) -> Seq<ReferenceSpec>
    decreases attrs.len(),
{
    if attrs.len() == 0 {
        seq![]
    } else {
        let prev = attribute_references(attrs.drop_last(), source, line, col);
        let name = attrs.last().0;
        let text = attribute_text(attrs.last().1);
        let direct = if is_reference_attribute(name) && trimmed(text).len() > 0 {
            seq![
                ReferenceSpec {
                    url: trimmed(text),
                    source,
                    line: Some(line as usize),
                    col: Some(col as usize),
                },
            ]
        } else {
            seq![]
        };
        let inline = if name_is(name, "style"@) && css_position_limits(text.len(), line, col) {
            css_references(text, source, line, col)
        } else {
            seq![]
        };
        prev + direct + inline
    }
}

/// Where an open `<style>` block starts: its byte offset and its line and
/// column.
pub struct StyleScan {
    pub open: bool,
    pub start: nat,
    pub line: nat,
    pub col: nat,
}

/// The scan of HTML text `s` with tokens `toks`: the `<style>` block it is in,
/// and the references found so far. A `<style>` block's CSS references are
/// taken at its end tag, when the block is well delimited.
pub open spec fn html_scan(s: Seq<char>, toks: Seq<HtmlTokenSpec>, source: Seq<char>) -> (
    StyleScan,
    Seq<ReferenceSpec>,
)
    decreases toks.len(),
{
    if toks.len() == 0 {
        (StyleScan { open: false, start: 0, line: 1, col: 1 }, seq![])
    } else {
        let (st, refs) = html_scan(s, toks.drop_last(), source);
        match toks.last() {
            HtmlTokenSpec::Start { name, attributes, start, end, .. } => {
                let here = line_col_of_offset(s, start as nat);
                let there = line_col_of_offset(s, end as nat);
                let st2 = if name_is(name, "style"@) {
                    StyleScan { open: true, start: end as nat, line: there.0, col: there.1 }
                } else {
                    st
                };
                (st2, refs + attribute_references(attributes, source, here.0, here.1))
            },
            HtmlTokenSpec::End { name, start, .. } => {
                if name_is(name, "style"@) && st.open {
                    let css = text_between(s, st.start as int, start as int);
                    let extra = if on_boundaries(s, st.start as int, start as int)
                        && css_position_limits(css.len(), st.line, st.col) {
                        css_references(css, source, st.line, st.col)
                    } else {
                        seq![]
                    };
                    (StyleScan { open: false, ..st }, refs + extra)
                } else {
                    (st, refs)
                }
            },
            HtmlTokenSpec::Other => (st, refs),
        }
    }
}

/// The static references of HTML text `s` whose tokens are `toks`.
pub open spec fn html_references(s: Seq<char>, toks: Seq<HtmlTokenSpec>, source: Seq<char>) -> Seq<
    ReferenceSpec,
> {
    html_scan(s, toks, source).1
}

/// Whether CSS positions fit: see [`css_position_limits`].
fn positions_fit(n: usize, base_line: usize, base_col: usize) -> (r: bool)
    ensures
        r == css_position_limits(n as nat, base_line as nat, base_col as nat),
{
    n <= (usize::MAX - 1) / 4 && base_line <= usize::MAX - 1 - n && base_col <= usize::MAX - 1 - 4
        * n
}

fn extend_references(refs: &mut Vec<ExtractedReference>, more: Vec<ExtractedReference>)
    ensures
        reference_views(final(refs)@) == reference_views(old(refs)@) + reference_views(more@),
{
    let ghost added = more@;
    let mut more = more;
    refs.append(&mut more);
    assert(reference_views(refs@) =~= reference_views(old(refs)@) + reference_views(added));
}

fn attribute_references_in(
    attrs: &Vec<(Vec<u8>, Vec<u8>)>,
    source_file: &str,
    line: usize,
    col: usize,
) -> (r: Vec<ExtractedReference>)
    ensures
        reference_views(r@) == attribute_references(
            attribute_views(attrs@),
            source_file@,
            line as nat,
            col as nat,
        ),
{
    let mut refs: Vec<ExtractedReference> = Vec::new();
    let mut i: usize = 0;
    while i < attrs.len()
        invariant
            i <= attrs@.len(),
            reference_views(refs@) == attribute_references(
                attribute_views(attrs@).take(i as int),
                source_file@,
                line as nat,
                col as nat,
            ),
        decreases attrs@.len() - i,
    {
        assert(attribute_views(attrs@).take(i + 1).drop_last() == attribute_views(attrs@).take(
            i as int,
        ));
        let name = &attrs[i].0;
        let text = match decode_text(&attrs[i].1) {
            Some(t) => t,
            None => String::new(),
        };
        let ghost before = reference_views(refs@);
        if reference_attribute(name) {
            let cs = chars_of(text.as_str());
            let t = trim_chars(&cs);
            if t.len() > 0 {
                let r = ExtractedReference {
                    raw_url: string_from_chars(&t),
                    source_file: source_file.to_owned(),
                    line: Some(line),
                    col: Some(col),
                };
                refs.push(r);
                assert(reference_views(refs@) =~= before.push(reference_view(r)));
            }
        }
        let ghost mid = reference_views(refs@);
        if name_matches(name, "style") {
            let cs = chars_of(text.as_str());
            if positions_fit(cs.len(), line, col) {
                let more = extract_references_from_css(text.as_str(), source_file, line, col);
                extend_references(&mut refs, more);
            }
        }
        assert(reference_views(refs@) =~= attribute_references(
            attribute_views(attrs@).take(i + 1),
            source_file@,
            line as nat,
            col as nat,
        ));
        i = i + 1;
    }
    assert(attribute_views(attrs@).take(attrs@.len() as int) == attribute_views(attrs@));
    refs
}

/// Extracts the static references of HTML text from its tokens (see
/// [`html_references`]).
pub fn html_references_in(content: &str, tokens: &Vec<HtmlToken>, source_file: &str) -> (r: Vec<
    ExtractedReference,
>)
    requires
        encode_utf8(content@).len() < usize::MAX,
    ensures
        reference_views(r@) == html_references(content@, token_views(tokens@), source_file@),
{
    let mut refs: Vec<ExtractedReference> = Vec::new();
    let mut open = false;
    let mut style_start: usize = 0;
    let mut style_line: usize = 1;
    let mut style_col: usize = 1;
    let mut i: usize = 0;
    while i < tokens.len()
        invariant
            i <= tokens@.len(),
            encode_utf8(content@).len() < usize::MAX,
            html_scan(content@, token_views(tokens@).take(i as int), source_file@) == (
                StyleScan {
                    open,
                    start: style_start as nat,
                    line: style_line as nat,
                    col: style_col as nat,
                },
                reference_views(refs@),
            ),
        decreases tokens@.len() - i,
    {
        assert(token_views(tokens@).take(i + 1).drop_last() == token_views(tokens@).take(i as int));
        match &tokens[i] {
            HtmlToken::Start(tag) => {
                let (l, c) = offset_line_col(content, tag.start);
                if name_matches(&tag.name, "style") {
                    open = true;
                    style_start = tag.end;
                    let (sl, sc) = offset_line_col(content, tag.end);
                    style_line = sl;
                    style_col = sc;
                }
                let more = attribute_references_in(&tag.attributes, source_file, l, c);
                extend_references(&mut refs, more);
            },
            HtmlToken::End(tag) => {
                if name_matches(&tag.name, "style") && open {
                    open = false;
                    if boundaries_check(content, style_start, tag.start) {
                        let css = text_slice(content, style_start, tag.start);
                        let cs = chars_of(css);
                        if positions_fit(cs.len(), style_line, style_col) {
                            let more = extract_references_from_css(
                                css,
                                source_file,
                                style_line,
                                style_col,
                            );
                            extend_references(&mut refs, more);
                        }
                    }
                }
            },
            HtmlToken::Other => {},
        }
        i = i + 1;
    }
    assert(token_views(tokens@).take(tokens@.len() as int) == token_views(tokens@));
    refs
}

/// Extracts the static references of an HTML page: the `href`, `src` and
/// `poster` attributes of its tags, and the `url(...)` and `@import`
/// references of its `style` attributes and `<style>` blocks, each with the
/// line and column where it was found (see [`html_references`]).
pub fn extract_references_from_html(content: &str, source_file: &str) -> (r: Vec<ExtractedReference>)
    requires
        encode_utf8(content@).len() < usize::MAX,
    ensures
        reference_views(r@) == html_references(content@, html5gum_tokens(content@), source_file@),
{
    let tokens = tokenize_html(content);
    html_references_in(content, &tokens, source_file)
}

// ---------------------------------------------------------------------------
// Reference rewriting in HTML
// ---------------------------------------------------------------------------

/// A replacement of bytes `start..end` of a text by `text`.
pub struct TextEdit {
    pub start: usize,
    pub end: usize,
    pub text: Vec<char>,
}

pub open spec fn edit_view(e: TextEdit) -> (int, int, Seq<char>) {
    (e.start as int, e.end as int, e.text@)
}

pub open spec fn edit_views(es: Seq<TextEdit>) -> Seq<(int, int, Seq<char>)> {
    es.map_values(|e: TextEdit| edit_view(e))
}

/// The edit that rewrites the reference or the CSS (`css`) held in bytes
/// `a..b` of `s`, when they are well delimited and the rewriting changes them.
pub open spec fn value_edit(
    files: Seq<ProjectFile>,
    s: Seq<char>,
    source: Seq<char>,
    a: int,
    b: int,
    css: bool,
) -> Seq<(int, int, Seq<char>)> {
    let raw = text_between(s, a, b);
    let new = if css {
        rewritten_css(files, raw, source)
    } else {
        rewritten_reference(files, raw, source)
    };
    if on_boundaries(s, a, b) && new != raw {
        seq![(a, b, new)]
    } else {
        seq![]
    }
}

/// The edit for an attribute value found at `span` of the tag starting at
/// byte `base`.
pub open spec fn span_edit(
    files: Seq<ProjectFile>,
    s: Seq<char>,
    source: Seq<char>,
    base: int,
    span: Option<(int, int)>,
    css: bool,
) -> Seq<(int, int, Seq<char>)> {
    match span {
        Some((a, e)) => value_edit(files, s, source, base + a, base + e, css),
        None => seq![],
    }
}

/// The edits of one start tag spanning bytes `tstart..tend`: for each
/// `href`, `src` and `poster` attribute its rewritten reference, and for a
/// `style` attribute its rewritten CSS, located in the tag text.
pub open spec fn tag_edits(
    files: Seq<ProjectFile>,
    s: Seq<char>,
    source: Seq<char>,
    tstart: int,
    tend: int,
    attrs: Seq<(Seq<u8>, Seq<u8>)>,
) -> Seq<(int, int, Seq<char>)>
    decreases attrs.len(),
{
    if attrs.len() == 0 {
        seq![]
    } else {
        let prev = tag_edits(files, s, source, tstart, tend, attrs.drop_last());
        let name = attrs.last().0;
        let tag = encode_utf8(s).subrange(tstart, tend);
        let r = if is_reference_attribute(name) {
            span_edit(files, s, source, tstart, attribute_value_span(tag, name), false)
        } else {
            seq![]
        };
        let c = if name_is(name, "style"@) {
            span_edit(
                files,
                s,
                source,
                tstart,
                attribute_value_span(tag, encode_utf8("style"@)),
                true,
            )
        } else {
            seq![]
        };
        prev + r + c
    }
}

/// The scan of HTML text `s` with tokens `toks` for rewriting: whether a
/// `<style>` block is open and where its text starts, and the edits so far.
pub open spec fn html_edit_scan(
    files: Seq<ProjectFile>,
    s: Seq<char>,
    toks: Seq<HtmlTokenSpec>,
    source: Seq<char>,
) -> (bool, int, Seq<(int, int, Seq<char>)>)
    decreases toks.len(),
{
    if toks.len() == 0 {
        (false, 0, seq![])
    } else {
        let (open, start0, edits) = html_edit_scan(files, s, toks.drop_last(), source);
        match toks.last() {
            HtmlTokenSpec::Start { name, attributes, start, end, .. } => {
                let more = if on_boundaries(s, start as int, end as int) {
                    tag_edits(files, s, source, start as int, end as int, attributes)
                } else {
                    seq![]
                };
                if name_is(name, "style"@) {
                    (true, end as int, edits + more)
                } else {
                    (open, start0, edits + more)
                }
            },
            HtmlTokenSpec::End { name, start, .. } => {
                if name_is(name, "style"@) && open {
                    (false, start0, edits + value_edit(files, s, source, start0, start as int, true))
                } else {
                    (open, start0, edits)
                }
            },
            HtmlTokenSpec::Other => (open, start0, edits),
        }
    }
}

/// Whether an edit starting at `a` stays before one starting at `b` in the
/// ascending (or, with `desc`, descending) order of starts.
pub open spec fn stays_before(a: int, b: int, desc: bool) -> bool {
    if desc {
        a >= b
    } else {
        a <= b
    }
}

/// `sorted` with `e` inserted after every edit that stays before it.
pub open spec fn insert_edit(
    sorted: Seq<(int, int, Seq<char>)>,
    e: (int, int, Seq<char>),
    desc: bool,
) -> Seq<(int, int, Seq<char>)>
    decreases sorted.len(),
{
    if sorted.len() == 0 {
        seq![e]
    } else if stays_before(sorted.last().0, e.0, desc) {
        sorted.push(e)
    } else {
        insert_edit(sorted.drop_last(), e, desc).push(sorted.last())
    }
}

/// The edits in ascending (or, with `desc`, descending) order of their start,
/// edits with equal starts in their original order.
pub open spec fn sort_edits(es: Seq<(int, int, Seq<char>)>, desc: bool) -> Seq<(int, int, Seq<char>)>
    decreases es.len(),
{
    if es.len() == 0 {
        seq![]
    } else {
        insert_edit(sort_edits(es.drop_last(), desc), es.last(), desc)
    }
}

/// The text of bytes `b` from `last` on with the edits `es` applied in order;
/// an edit that starts before the end of the previous applied one is passed
/// over.
pub open spec fn apply_edits(b: Seq<u8>, es: Seq<(int, int, Seq<char>)>, last: int) -> Seq<char>
    decreases es.len(),
{
    if es.len() == 0 {
        decode_utf8(b.subrange(last, b.len() as int))
    } else if es[0].0 >= last {
        decode_utf8(b.subrange(last, es[0].0)) + es[0].2 + apply_edits(b, es.drop_first(), es[0].1)
    } else {
        apply_edits(b, es.drop_first(), last)
    }
}

/// HTML text `s` with the static references of its tags, `style` attributes
/// and `<style>` blocks rewritten against the `dist/` layout.
pub open spec fn rewritten_html(
    files: Seq<ProjectFile>,
    s: Seq<char>,
    toks: Seq<HtmlTokenSpec>,
    source: Seq<char>,
) -> Seq<char> {
    apply_edits(encode_utf8(s), sort_edits(html_edit_scan(files, s, toks, source).2, false), 0)
}

/// Every edit lies between character boundaries of `s`.
pub open spec fn edits_bounded(s: Seq<char>, es: Seq<(int, int, Seq<char>)>) -> bool {
    forall|i: int| 0 <= i < es.len() ==> on_boundaries(s, #[trigger] es[i].0, es[i].1)
}

fn push_edit(edits: &mut Vec<TextEdit>, e: TextEdit)
    ensures
        edit_views(final(edits)@) == edit_views(old(edits)@).push(edit_view(e)),
{
    edits.push(e);
    assert(edit_views(edits@) =~= edit_views(old(edits)@).push(edit_view(e)));
}

/// The edit of bytes `a..b` of `content` (see [`value_edit`]).
fn value_edit_of(
    content: &str,
    a: usize,
    b: usize,
    css: bool,
    source_file: &str,
    tree: &ProjectTree,
    edits: &mut Vec<TextEdit>,
)
    requires
        edits_bounded(content@, edit_views(old(edits)@)),
    ensures
        edit_views(final(edits)@) == edit_views(old(edits)@) + value_edit(
            tree.files@,
            content@,
            source_file@,
            a as int,
            b as int,
            css,
        ),
        edits_bounded(content@, edit_views(final(edits)@)),
{
    if !boundaries_check(content, a, b) {
        assert(edit_views(edits@) =~= edit_views(edits@) + seq![]);
        return;
    }
    let raw = text_slice(content, a, b);
    let raw_chars = chars_of(raw);
    let new = if css {
        rewrite_css_chars(&raw_chars, source_file, tree)
    } else {
        let r = rewrite_reference(raw, source_file, tree);
        chars_of(r.as_str())
    };
    if !chars_eq(&new, &raw_chars) {
        push_edit(edits, TextEdit { start: a, end: b, text: new });
    } else {
        assert(edit_views(edits@) =~= edit_views(edits@) + seq![]);
    }
}

fn tag_edits_of(
    content: &str,
    tstart: usize,
    tend: usize,
    attrs: &Vec<(Vec<u8>, Vec<u8>)>,
    source_file: &str,
    tree: &ProjectTree,
    edits: &mut Vec<TextEdit>,
)
    requires
        on_boundaries(content@, tstart as int, tend as int),
        edits_bounded(content@, edit_views(old(edits)@)),
    ensures
        edit_views(final(edits)@) == edit_views(old(edits)@) + tag_edits(
            tree.files@,
            content@,
            source_file@,
            tstart as int,
            tend as int,
            attribute_views(attrs@),
        ),
        edits_bounded(content@, edit_views(final(edits)@)),
{
    let tag_text = text_slice(content, tstart, tend);
    let ghost tag = encode_utf8(content@).subrange(tstart as int, tend as int);
    proof {
        broadcast use vstd::utf8::group_utf8_lib;

        lemma_boundary_in_rest(encode_utf8(content@), tstart as int, tend as int);
    }
    let mut i: usize = 0;
    while i < attrs.len()
        invariant
            i <= attrs@.len(),
            tstart <= tend,
            tag.len() == tend - tstart,
            on_boundaries(content@, tstart as int, tend as int),
            encode_utf8(tag_text@) == tag,
            tag == encode_utf8(content@).subrange(tstart as int, tend as int),
            edits_bounded(content@, edit_views(edits@)),
            edit_views(edits@) == edit_views(old(edits)@) + tag_edits(
                tree.files@,
                content@,
                source_file@,
                tstart as int,
                tend as int,
                attribute_views(attrs@).take(i as int),
            ),
        decreases attrs@.len() - i,
    {
        assert(attribute_views(attrs@).take(i + 1).drop_last() == attribute_views(attrs@).take(
            i as int,
        ));
        let ghost before = edit_views(edits@);
        let name = &attrs[i].0;
        if reference_attribute(name) {
            match find_attribute_value_span(tag_text, name.as_slice()) {
                Some((a, e)) => {
                    value_edit_of(content, tstart + a, tstart + e, false, source_file, tree, edits);
                },
                None => {},
            }
        }
        let ghost mid = edit_views(edits@);
        if name_matches(name, "style") {
            match find_attribute_value_span(tag_text, "style".as_bytes()) {
                Some((a, e)) => {
                    value_edit_of(content, tstart + a, tstart + e, true, source_file, tree, edits);
                },
                None => {},
            }
        }
        assert(edit_views(edits@) =~= edit_views(old(edits)@) + tag_edits(
            tree.files@,
            content@,
            source_file@,
            tstart as int,
            tend as int,
            attribute_views(attrs@).take(i + 1),
        ));
        i = i + 1;
    }
    assert(attribute_views(attrs@).take(attrs@.len() as int) == attribute_views(attrs@));
}

proof fn lemma_insert_edit_at(
    sorted: Seq<(int, int, Seq<char>)>,
    e: (int, int, Seq<char>),
    desc: bool,
    k: int,
)
    requires
        0 <= k <= sorted.len(),
        k == 0 || stays_before(sorted[k - 1].0, e.0, desc),
        forall|i: int| k <= i < sorted.len() ==> !stays_before(#[trigger] sorted[i].0, e.0, desc),
    ensures
        insert_edit(sorted, e, desc) == sorted.insert(k, e),
    decreases sorted.len(),
{
    if sorted.len() == 0 {
        assert(sorted.insert(k, e) =~= seq![e]);
    } else if stays_before(sorted.last().0, e.0, desc) {
        assert(sorted.insert(k, e) =~= sorted.push(e));
    } else {
        lemma_insert_edit_at(sorted.drop_last(), e, desc, k);
        assert(sorted.drop_last().insert(k, e).push(sorted.last()) =~= sorted.insert(k, e));
    }
}

fn stays_before_exec(a: usize, b: usize, desc: bool) -> (r: bool)
    ensures
        r == stays_before(a as int, b as int, desc),
{
    if desc {
        a >= b
    } else {
        a <= b
    }
}

/// Sorts edits by start, stably (see [`sort_edits`]).
pub fn sort_edits_by_start(es: Vec<TextEdit>, desc: bool, Ghost(s): Ghost<Seq<char>>) -> (r: Vec<
    TextEdit,
>)
    ensures
        edit_views(r@) == sort_edits(edit_views(es@), desc),
        edits_bounded(s, edit_views(es@)) ==> edits_bounded(s, edit_views(r@)),
{
    let ghost all = edit_views(es@);
    let count = es.len();
    let mut rest = es;
    let mut out: Vec<TextEdit> = Vec::new();
    let mut n: usize = 0;
    while rest.len() > 0
        invariant
            n <= all.len() == count,
            edit_views(rest@) == all.skip(n as int),
            edit_views(out@) == sort_edits(all.take(n as int), desc),
            all == edit_views(es@),
            edits_bounded(s, all) ==> edits_bounded(s, edit_views(out@)),
        decreases rest@.len(),
    {
        let ghost old_out = edit_views(out@);
        let ghost old_rest = rest@;
        assert(edit_views(old_rest).len() == all.len() - n);
        let e = rest.remove(0);
        assert(edit_views(rest@) =~= edit_views(old_rest).drop_first());
        assert(edit_views(rest@) =~= all.skip(n + 1));
        assert(edit_view(e) == all[n as int]) by {
            assert(edit_view(e) == edit_views(old_rest)[0]);
            assert(all.skip(n as int)[0] == all[n as int]);
        }
        let mut j: usize = out.len();
        while j > 0 && !stays_before_exec(out[j - 1].start, e.start, desc)
            invariant
                j <= out@.len(),
                forall|i: int|
                    j <= i < out@.len() ==> !stays_before(
                        #[trigger] out@[i].start as int,
                        e.start as int,
                        desc,
                    ),
            decreases j,
        {
            j = j - 1;
        }
        proof {
            assert forall|i: int| j <= i < old_out.len() implies !stays_before(
                #[trigger] old_out[i].0,
                edit_view(e).0,
                desc,
            ) by {
                assert(!stays_before(out@[i].start as int, e.start as int, desc));
            }
            lemma_insert_edit_at(old_out, edit_view(e), desc, j as int);
        }
        out.insert(j, e);
        assert(edit_views(out@) =~= old_out.insert(j as int, edit_view(e)));
        assert(all.take(n + 1).drop_last() == all.take(n as int));
        assert(all.take(n + 1).last() == all[n as int]);
        proof {
            if edits_bounded(s, all) {
                assert forall|i: int| 0 <= i < edit_views(out@).len() implies on_boundaries(
                    s,
                    #[trigger] edit_views(out@)[i].0,
                    edit_views(out@)[i].1,
                ) by {
                    if i < j {
                        assert(edit_views(out@)[i] == old_out[i]);
                    } else if i > j {
                        assert(edit_views(out@)[i] == old_out[i - 1]);
                    } else {
                        assert(edit_views(out@)[i] == all[n as int]);
                    }
                }
            }
        }
        n = n + 1;
    }
    assert(all.take(n as int) == all);
    out
}

/// Applies sorted edits to `content` (see [`apply_edits`]).
fn apply_edits_to(content: &str, edits: &Vec<TextEdit>) -> (r: Vec<char>)
    requires
        edits_bounded(content@, edit_views(edits@)),
    ensures
        r@ == apply_edits(encode_utf8(content@), edit_views(edits@), 0),
{
    broadcast use vstd::utf8::group_utf8_lib;

    let ghost b = encode_utf8(content@);
    let ghost es = edit_views(edits@);
    let mut out: Vec<char> = Vec::new();
    let mut last: usize = 0;
    let mut i: usize = 0;
    proof {
        reveal_with_fuel(is_char_boundary, 1);
    }
    assert(es.skip(0) == es);
    while i < edits.len()
        invariant
            i <= es.len() == edits@.len(),
            es == edit_views(edits@),
            b == encode_utf8(content@),
            edits_bounded(content@, es),
            on_boundaries(content@, last as int, last as int),
            out@ + apply_edits(b, es.skip(i as int), last as int) == apply_edits(b, es, 0),
        decreases es.len() - i,
    {
        let ghost rest = es.skip(i as int);
        assert(rest.drop_first() == es.skip(i + 1));
        assert(rest[0] == es[i as int]);
        let e = &edits[i];
        assert(on_boundaries(content@, es[i as int].0, es[i as int].1));
        if e.start >= last {
            let gap = text_slice(content, last, e.start);
            let ghost before = out@;
            append_str(&mut out, gap);
            append_chars(&mut out, &e.text);
            assert(out@ == before + text_between(content@, last as int, e.start as int) + e.text@);
            last = e.end;
        }
        i = i + 1;
    }
    proof {
        vstd::utf8::is_char_boundary_start_end_of_seq(b);
        lemma_boundary_in_rest(b, last as int, last as int);
    }
    let len = content.as_bytes().len();
    let tail = text_slice(content, last, len);
    append_str(&mut out, tail);
    assert(es.skip(i as int).len() == 0);
    out
}

/// Rewrites the static references of HTML text from its tokens (see
/// [`rewritten_html`]).
pub fn rewrite_html_tokens(
    content: &str,
    tokens: &Vec<HtmlToken>,
    source_file: &str,
    tree: &ProjectTree,
) -> (r: String)
    ensures
        r@ == rewritten_html(tree.files@, content@, token_views(tokens@), source_file@),
{
    let mut edits: Vec<TextEdit> = Vec::new();
    let mut open = false;
    let mut style_start: usize = 0;
    let mut i: usize = 0;
    while i < tokens.len()
        invariant
            i <= tokens@.len(),
            edits_bounded(content@, edit_views(edits@)),
            html_edit_scan(tree.files@, content@, token_views(tokens@).take(i as int), source_file@)
                == (open, style_start as int, edit_views(edits@)),
        decreases tokens@.len() - i,
    {
        assert(token_views(tokens@).take(i + 1).drop_last() == token_views(tokens@).take(i as int));
        let ghost before = edit_views(edits@);
        match &tokens[i] {
            HtmlToken::Start(tag) => {
                if boundaries_check(content, tag.start, tag.end) {
                    tag_edits_of(content, tag.start, tag.end, &tag.attributes, source_file, tree, &mut edits);
                } else {
                    assert(before =~= before + seq![]);
                }
                if name_matches(&tag.name, "style") {
                    open = true;
                    style_start = tag.end;
                }
            },
            HtmlToken::End(tag) => {
                if name_matches(&tag.name, "style") && open {
                    open = false;
                    value_edit_of(content, style_start, tag.start, true, source_file, tree, &mut edits);
                }
            },
            HtmlToken::Other => {},
        }
        i = i + 1;
    }
    assert(token_views(tokens@).take(tokens@.len() as int) == token_views(tokens@));
    let sorted = sort_edits_by_start(edits, false, Ghost(content@));
    let out = apply_edits_to(content, &sorted);
    string_from_chars(&out)
}

/// Rewrites the static references of an HTML page (`href`, `src` and
/// `poster` attributes, `style` attributes and `<style>` blocks) so that they
/// resolve against the `dist/` layout; everything else is kept byte for byte
/// (see [`rewritten_html`]).
pub fn rewrite_html_references(content: &str, source_file: &str, tree: &ProjectTree) -> (r: String)
    ensures
        r@ == rewritten_html(tree.files@, content@, html5gum_tokens(content@), source_file@),
{
    let tokens = tokenize_html(content);
    rewrite_html_tokens(content, &tokens, source_file, tree)
}

} // verus!
