//! Whether built output needs an HTTP server: module scripts and `fetch`
//! calls do not work from `file://` URLs.

use vstd::prelude::*;
use vstd::utf8::{decode_utf8, encode_utf8, valid_utf8};

use crate::cli::{is_white_space, is_white_space_char};
use crate::css::is_ascii_ws;
use crate::html::decode_text;
use crate::layout::is_ascii_alnum;
use crate::layout::leading_ws;
use crate::text::{ascii_lower, chars_of, lit, lower_char, matches_at, occurs_at};

verus! {

/// The first index from `i` on where `pat` occurs in `s`, or `-1`.
pub open spec fn first_occurrence(s: Seq<char>, pat: Seq<char>, i: int) -> int
    decreases s.len() + 1 - i,
{
    if i < 0 || i + pat.len() > s.len() {
        -1
    } else if occurs_at(s, pat, i) {
        i
    } else {
        first_occurrence(s, pat, i + 1)
    }
}

pub proof fn lemma_first_occurrence(s: Seq<char>, pat: Seq<char>, i: int)
    ensures
        first_occurrence(s, pat, i) == -1 || (i <= first_occurrence(s, pat, i) && first_occurrence(
            s,
            pat,
            i,
        ) + pat.len() <= s.len() && occurs_at(s, pat, first_occurrence(s, pat, i))),
    decreases s.len() + 1 - i,
{
    if !(i < 0 || i + pat.len() > s.len()) && !occurs_at(s, pat, i) {
        lemma_first_occurrence(s, pat, i + 1);
    }
}

/// Finds `pat` in `s` from index `i` on (see [`first_occurrence`]).
pub fn find_from(s: &Vec<char>, pat: &Vec<char>, i: usize) -> (r: Option<usize>)
    ensures
        match r {
            Some(k) => k as int == first_occurrence(s@, pat@, i as int),
            None => first_occurrence(s@, pat@, i as int) == -1,
        },
{
    let mut k: usize = i;
    while k <= s.len() && pat.len() <= s.len() - k
        invariant
            i <= k,
            first_occurrence(s@, pat@, k as int) == first_occurrence(s@, pat@, i as int),
        decreases s@.len() + 1 - k,
    {
        if matches_at(s, pat, k) {
            return Some(k);
        }
        assert(pat@.len() > 0) by {
            if pat@.len() == 0 {
                assert(s@.subrange(k as int, k as int) =~= pat@);
            }
        }
        k = k + 1;
    }
    None
}

/// `s` in ASCII lower case.
pub open spec fn lowered(s: Seq<char>) -> Seq<char> {
    s.map_values(|c: char| ascii_lower(c))
}

fn lower_chars(s: &Vec<char>) -> (r: Vec<char>)
    ensures
        r@ == lowered(s@),
{
    let mut out: Vec<char> = Vec::new();
    let mut i: usize = 0;
    while i < s.len()
        invariant
            i <= s@.len(),
            out@ == lowered(s@.take(i as int)),
        decreases s@.len() - i,
    {
        out.push(lower_char(s[i]));
        assert(lowered(s@.take(i + 1)) =~= lowered(s@.take(i as int)).push(ascii_lower(s@[i as int])));
        i = i + 1;
    }
    assert(s@.take(s@.len() as int) == s@);
    out
}

/// `s` without leading white space (`str::trim_start`).
pub open spec fn trimmed_start(s: Seq<char>) -> Seq<char> {
    s.skip(leading_ws(s) as int)
}

/// `s` without leading and trailing white space (`str::trim`).
pub open spec fn trimmed_both(s: Seq<char>) -> Seq<char> {
    crate::layout::trimmed(s)
}

/// Index of the first character of `s` from `i` on that satisfies the
/// class, or the end.
pub open spec fn first_index_from(s: Seq<char>, c: char, i: int) -> int
    decreases s.len() - i,
{
    if i < 0 || i >= s.len() {
        -1
    } else if s[i] == c {
        i
    } else {
        first_index_from(s, c, i + 1)
    }
}

/// The text before the first `q` (all of `s` without one).
pub open spec fn before_char(s: Seq<char>, q: char) -> Seq<char> {
    let k = first_index_from(s, q, 0);
    if k < 0 {
        s
    } else {
        s.take(k)
    }
}

/// The text before the first ASCII white space.
pub open spec fn first_word(s: Seq<char>) -> Seq<char>
    decreases s.len(),
{
    if s.len() == 0 || is_ascii_ws(s[0]) {
        seq![]
    } else {
        seq![s[0]] + first_word(s.drop_first())
    }
}

/// Whether an attribute value, as it follows `type=` (leading white space
/// removed), is `module`: double-quoted, single-quoted, or an unquoted word
/// (one trailing `/` dropped), compared trimmed.
pub open spec fn value_is_module(value: Seq<char>) -> bool {
    let candidate = if value.len() > 0 && value[0] == '"' {
        before_char(value.drop_first(), '"')
    } else if value.len() > 0 && value[0] == '\'' {
        before_char(value.drop_first(), '\'')
    } else {
        let w = first_word(value);
        if w.len() > 0 && w.last() == '/' {
            w.drop_last()
        } else {
            w
        }
    };
    trimmed_both(candidate) == "module"@
}

fn before_char_of(s: &Vec<char>, from: usize, q: char) -> (r: Vec<char>)
    requires
        from <= s@.len(),
    ensures
        r@ == before_char(s@.skip(from as int), q),
{
    let ghost t = s@.skip(from as int);
    let mut k: usize = from;
    while k < s.len() && s[k] != q
        invariant
            from <= k <= s@.len(),
            t == s@.skip(from as int),
            first_index_from(t, q, (k - from) as int) == first_index_from(t, q, 0),
        decreases s@.len() - k,
    {
        assert(t[(k - from) as int] == s@[k as int]);
        k = k + 1;
    }
    if k < s.len() {
        assert(t[(k - from) as int] == s@[k as int]);
    }
    let r = crate::text::slice_chars(s, from, k);
    assert(r@ =~= before_char(t, q));
    r
}

fn first_word_of(s: &Vec<char>) -> (r: Vec<char>)
    ensures
        r@ == first_word(s@),
{
    let mut k: usize = 0;
    while k < s.len() && !is_ascii_ws_char(s[k])
        invariant
            k <= s@.len(),
            forall|j: int| 0 <= j < k ==> !is_ascii_ws(#[trigger] s@[j]),
        decreases s@.len() - k,
    {
        k = k + 1;
    }
    let r = crate::text::slice_chars(s, 0, k);
    proof {
        lemma_first_word(s@, k as int);
    }
    r
}

proof fn lemma_first_word(s: Seq<char>, k: int)
    requires
        0 <= k <= s.len(),
        forall|j: int| 0 <= j < k ==> !is_ascii_ws(#[trigger] s[j]),
        k == s.len() || is_ascii_ws(s[k]),
    ensures
        first_word(s) == s.subrange(0, k),
    decreases s.len(),
{
    if k > 0 {
        let t = s.drop_first();
        assert forall|j: int| 0 <= j < k - 1 implies !is_ascii_ws(#[trigger] t[j]) by {
            assert(t[j] == s[j + 1]);
        }
        if k < s.len() {
            assert(t[k - 1] == s[k]);
        }
        lemma_first_word(t, k - 1);
        assert(seq![s[0]] + t.subrange(0, k - 1) =~= s.subrange(0, k));
    } else {
        assert(s.subrange(0, 0) =~= seq![]);
    }
}

/// Where the text from `from` on starts once leading white space is dropped.
pub fn trim_start_index(s: &Vec<char>, from: usize) -> (r: usize)
    requires
        from <= s@.len(),
    ensures
        from <= r <= s@.len(),
        s@.skip(r as int) == trimmed_start(s@.skip(from as int)),
{
    trim_start_from(s, from)
}

fn trim_start_from(s: &Vec<char>, from: usize) -> (r: usize)
    requires
        from <= s@.len(),
    ensures
        from <= r <= s@.len(),
        s@.skip(r as int) == trimmed_start(s@.skip(from as int)),
{
    let mut k: usize = from;
    while k < s.len() && is_white_space_char(s[k])
        invariant
            from <= k <= s@.len(),
            leading_ws(s@.skip(from as int)) == (k - from) + leading_ws(s@.skip(k as int)),
        decreases s@.len() - k,
    {
        assert(s@.skip(k as int).drop_first() == s@.skip(k + 1));
        assert(s@.skip(k as int)[0] == s@[k as int]);
        k = k + 1;
    }
    if k < s.len() {
        assert(s@.skip(k as int)[0] == s@[k as int]);
    }
    assert(s@.skip(from as int).skip((k - from) as int) =~= s@.skip(k as int));
    k
}

proof fn lemma_module_word_trimmed()
    ensures
        trimmed_both("module"@) == "module"@,
{
    reveal_strlit("module");
    crate::layout::lemma_trimmed_plain("module"@);
}

/// Law: a `type` value that opens with a double or a single quote is
/// `module` when `module` is what the quotes enclose, whatever follows the
/// closing quote.
pub proof fn law_quoted_module_value(q: char, rest: Seq<char>)
    requires
        q == '"' || q == '\'',
    ensures
        value_is_module(seq![q] + "module"@ + seq![q] + rest),
{
    reveal_strlit("module");
    let v = seq![q] + "module"@ + seq![q] + rest;
    let body = v.drop_first();
    assert(body =~= "module"@ + seq![q] + rest);
    assert forall|j: int| 0 <= j < 6 implies body[j] != q by {
        assert(body[j] == "module"@[j]);
    }
    assert(body[6] == q);
    lemma_first_index_from_at(body, q, 0, 6);
    assert(before_char(body, q) =~= "module"@);
    lemma_module_word_trimmed();
}

/// Law: an unquoted `type` value is `module` when its first word is
/// `module`, with or without one trailing `/`: the word ends at ASCII white
/// space or at the end of the value.
pub proof fn law_unquoted_module_value(slash: bool, rest: Seq<char>)
    requires
        rest.len() == 0 || is_ascii_ws(rest[0]),
    ensures
        value_is_module((if slash { "module/"@ } else { "module"@ }) + rest),
{
    reveal_strlit("module");
    reveal_strlit("module/");
    let w = if slash { "module/"@ } else { "module"@ };
    let v = w + rest;
    assert forall|j: int| 0 <= j < w.len() implies !is_ascii_ws(#[trigger] v[j]) by {
        assert(v[j] == w[j]);
    }
    if w.len() < v.len() {
        assert(v[w.len() as int] == rest[0]);
    }
    lemma_first_word(v, w.len() as int);
    assert(v.subrange(0, w.len() as int) =~= w);
    if slash {
        assert(w.drop_last() =~= "module"@);
    }
    assert(v[0] == 'm');
    lemma_module_word_trimmed();
}

proof fn lemma_first_index_from_at(s: Seq<char>, c: char, i: int, k: int)
    requires
        0 <= i <= k < s.len(),
        s[k] == c,
        forall|j: int| i <= j < k ==> s[j] != c,
    ensures
        first_index_from(s, c, i) == k,
    decreases k - i,
{
    if i < k {
        lemma_first_index_from_at(s, c, i + 1, k);
    }
}

/// Law: a script's attribute text ` type=` followed by `module` in double
/// or single quotes declares a module, whatever follows.
pub proof fn law_quoted_module_type(q: char, rest: Seq<char>)
    requires
        q == '"' || q == '\'',
    ensures
        has_module_type(" type="@ + seq![q] + "module"@ + seq![q] + rest),
{
    reveal_strlit(" type=");
    reveal_strlit("type");
    reveal_strlit("module");
    let s = " type="@ + seq![q] + "module"@ + seq![q] + rest;
    let tail = seq![q] + "module"@ + seq![q] + rest;
    assert(s =~= " type="@ + tail);
    assert(!occurs_at(s, "type"@, 0)) by {
        if occurs_at(s, "type"@, 0) {
            assert(s.subrange(0, 4)[0] == s[0]);
        }
    }
    assert(s.subrange(1, 5) =~= "type"@);
    assert(occurs_at(s, "type"@, 1));
    assert(first_occurrence(s, "type"@, 1) == 1);
    assert(first_occurrence(s, "type"@, 0) == 1);
    assert(s[5] == '=');
    assert(s.skip(5)[0] == '=');
    assert(!crate::cli::is_white_space('='));
    assert(leading_ws(s.skip(5)) == 0);
    assert(s.skip(5).skip(0) =~= s.skip(5));
    let value = trimmed_start(s.skip(5));
    assert(value == s.skip(5));
    assert(value.drop_first() =~= tail);
    assert(tail[0] == q);
    assert(!crate::cli::is_white_space(q));
    assert(leading_ws(tail) == 0);
    assert(tail.skip(0) =~= tail);
    assert(trimmed_start(value.drop_first()) == tail);
    law_quoted_module_value(q, rest);
    assert(is_ascii_ws(s[0]));
}

proof fn lemma_lower_keeps_gt(s: Seq<char>)
    requires
        forall|j: int| 0 <= j < s.len() ==> s[j] != '>',
    ensures
        forall|j: int| 0 <= j < lowered(s).len() ==> lowered(s)[j] != '>',
        lowered(s).len() == s.len(),
{
    assert forall|j: int| 0 <= j < lowered(s).len() implies lowered(s)[j] != '>' by {
        let c = s[j];
        if 'A' <= c && c <= 'Z' {
            let u = ((c as u32) + 32) as u8;
            assert(97 <= u <= 122);
            assert((u as char) as u32 == u as u32);
        }
    }
}

/// Law: a text holding a `<script` tag whose attributes open with `type`
/// set to `module` in double or single quotes needs an HTTP server: its
/// UTF-8 bytes make [`needs_http`] hold, whatever other attributes (up to
/// the tag's `>`) and text follow.
pub proof fn law_quoted_module_script_needs_http(q: char, attrs: Seq<char>, tail: Seq<char>)
    requires
        q == '"' || q == '\'',
        forall|j: int| 0 <= j < attrs.len() ==> attrs[j] != '>',
    ensures
        needs_http(seq![encode_utf8("<script type="@ + seq![q] + "module"@ + seq![q] + attrs + ">"@ + tail)]),
{
    reveal_strlit("<script type=");
    reveal_strlit("<script");
    reveal_strlit("module");
    reveal_strlit(">");
    reveal_strlit(" type=");
    let head = "<script type="@ + seq![q] + "module"@ + seq![q];
    let content = head + attrs + ">"@ + tail;
    let la = lowered(attrs);
    lemma_lower_keeps_gt(attrs);
    assert(lowered(head) =~= head);
    assert(lowered(">"@) =~= ">"@);
    assert(lowered(content) =~= head + la + ">"@ + lowered(tail));
    let l = lowered(content);
    assert(l.subrange(0, 7) =~= "<script"@);
    assert(occurs_at(l, "<script"@, 0));
    assert(first_occurrence(l, "<script"@, 0) == 0);
    assert(!is_ascii_alnum(l[7]));
    let e: int = 21 + la.len() as int;
    assert forall|j: int| 7 <= j < e implies l[j] != '>' by {
        if j >= 21 {
            assert(l[j] == la[j - 21]);
        }
    }
    assert(l[e] == '>');
    lemma_first_index_from_at(l, '>', 7, e);
    assert(l.subrange(7, e) =~= " type="@ + seq![q] + "module"@ + seq![q] + la);
    law_quoted_module_type(q, la);
    assert(module_script_from(l, 0));
    vstd::utf8::encode_utf8_valid_utf8(content);
    vstd::utf8::encode_utf8_decode_utf8(content);
    let cs = seq![encode_utf8(content)];
    assert(cs[0] == encode_utf8(content));
}

/// Whether a `type=` value is `module` (see [`value_is_module`]).
pub fn attribute_value_is_module(value: &str) -> (r: bool)
    ensures
        r == value_is_module(value@),
{
    let v = chars_of(value);
    assert(v@.skip(1) == v@.drop_first());
    let candidate = if v.len() > 0 && v[0] == '"' {
        before_char_of(&v, 1, '"')
    } else if v.len() > 0 && v[0] == '\'' {
        before_char_of(&v, 1, '\'')
    } else {
        let mut w = first_word_of(&v);
        let n = w.len();
        if n > 0 && w[n - 1] == '/' {
            w.pop();
        }
        w
    };
    let t = crate::layout::trim_chars(&candidate);
    let m = lit("module");
    crate::text::chars_eq(&t, &m)
}

/// Whether the text after position `i` of `s` starts a `type` attribute whose
/// value is `module`; `floor` is where the text being searched starts, so a
/// `type` found there has no character before it.
pub open spec fn module_type_from(s: Seq<char>, floor: int, i: int) -> bool
    decreases s.len() - i,
{
    let start = first_occurrence(s, "type"@, i);
    if start < 0 || i < 0 || i > s.len() {
        false
    } else {
        let after = start + 4;
        let before_ok = start == floor || is_ascii_ws(s[start - 1]);
        let after_ok = after >= s.len() || is_ascii_ws(s[after]) || s[after] == '=';
        let value = trimmed_start(s.skip(after));
        if before_ok && after_ok && value.len() > 0 && value[0] == '=' && value_is_module(
            trimmed_start(value.drop_first()),
        ) {
            true
        } else {
            proof {
                reveal_strlit("type");
                lemma_first_occurrence(s, "type"@, i);
            }
            module_type_from(s, after, after)
        }
    }
}

/// Whether attribute text has `type` with value `module` (see
/// [`module_type_from`]).
pub open spec fn has_module_type(attrs: Seq<char>) -> bool {
    module_type_from(attrs, 0, 0)
}

/// Whether the (lower-cased) attribute text of a `<script>` tag declares a
/// module (see [`has_module_type`]).
pub fn has_module_type_attribute(attributes: &str) -> (r: bool)
    ensures
        r == has_module_type(attributes@),
{
    let s = chars_of(attributes);
    let pat = lit("type");
    proof {
        reveal_strlit("type");
    }
    let mut i: usize = 0;
    loop
        invariant
            i <= s@.len(),
            s@ == attributes@,
            pat@ == "type"@,
            pat@.len() == 4,
            module_type_from(s@, i as int, i as int) == has_module_type(s@),
        decreases s@.len() - i,
    {
        proof {
            lemma_first_occurrence(s@, pat@, i as int);
        }
        match find_from(&s, &pat, i) {
            None => {
                return false;
            },
            Some(start) => {
                let n = s.len();
                assert(start + pat@.len() <= n);
                let after = start + 4;
                let before_ok = start == i || is_ascii_ws_char(s[start - 1]);
                let after_ok = after >= s.len() || is_ascii_ws_char(s[after]) || s[after] == '=';
                let v = trim_start_from(&s, after);
                if before_ok && after_ok && v < s.len() && s[v] == '=' {
                    assert(s@.skip(v as int)[0] == s@[v as int]);
                    assert(s@.skip(v as int).drop_first() == s@.skip(v + 1));
                    let w = trim_start_from(&s, v + 1);
                    let rest = crate::text::slice_chars(&s, w, s.len());
                    assert(rest@ == s@.skip(w as int));
                    let text = crate::text::string_from_chars(&rest);
                    if attribute_value_is_module(text.as_str()) {
                        return true;
                    }
                } else if v < s.len() {
                    assert(s@.skip(v as int)[0] == s@[v as int]);
                }
                i = after;
            },
        }
    }
}

fn is_ascii_ws_char(c: char) -> (r: bool)
    ensures
        r == is_ascii_ws(c),
{
    c == ' ' || c == '\t' || c == '\n' || c == '\x0C' || c == '\r'
}

/// Whether the text from position `i` on holds a `<script` tag (not followed
/// by a letter or digit) whose attributes, up to its `>`, declare a module.
pub open spec fn module_script_from(s: Seq<char>, i: int) -> bool
    decreases s.len() - i,
{
    let k = first_occurrence(s, "<script"@, i);
    if k < 0 || i < 0 {
        false
    } else {
        proof {
            reveal_strlit("<script");
            lemma_first_occurrence(s, "<script"@, i);
        }
        let a = k + 7;
        if a < s.len() && is_ascii_alnum(s[a]) {
            module_script_from(s, a)
        } else {
            let e = first_index_from(s, '>', a);
            if e < 0 {
                false
            } else if has_module_type(s.subrange(a, e)) {
                true
            } else {
                proof {
                    lemma_first_index_from(s, '>', a);
                }
                module_script_from(s, e + 1)
            }
        }
    }
}

pub proof fn lemma_first_index_from(s: Seq<char>, c: char, i: int)
    ensures
        first_index_from(s, c, i) == -1 || (i <= first_index_from(s, c, i) < s.len() && s[first_index_from(s, c, i)] == c),
    decreases s.len() - i,
{
    if !(i < 0 || i >= s.len()) && s[i] != c {
        lemma_first_index_from(s, c, i + 1);
    }
}

/// Whether text holds a module script tag, ignoring ASCII case.
pub open spec fn has_module_script(content: Seq<char>) -> bool {
    module_script_from(lowered(content), 0)
}

/// Whether text holds a `<script>` tag with `type` `module`, in any quoting
/// form and any ASCII case (see [`has_module_script`]).
pub fn contains_module_script(content: &str) -> (r: bool)
    ensures
        r == has_module_script(content@),
{
    let raw = chars_of(content);
    let s = lower_chars(&raw);
    let pat = lit("<script");
    proof {
        reveal_strlit("<script");
    }
    let mut i: usize = 0;
    loop
        invariant
            i <= s@.len(),
            pat@ == "<script"@,
            pat@.len() == 7,
            module_script_from(s@, i as int) == has_module_script(content@),
            s@ == lowered(content@),
        decreases s@.len() - i,
    {
        proof {
            lemma_first_occurrence(s@, pat@, i as int);
        }
        match find_from(&s, &pat, i) {
            None => {
                return false;
            },
            Some(k) => {
                let n = s.len();
                assert(k + pat@.len() <= n);
                let a = k + 7;
                if a < s.len() && (('a' <= s[a] && s[a] <= 'z') || ('A' <= s[a] && s[a] <= 'Z') || (
                '0' <= s[a] && s[a] <= '9')) {
                    i = a;
                } else {
                    let mut e: usize = a;
                    while e < s.len() && s[e] != '>'
                        invariant
                            a <= e <= s@.len(),
                            first_index_from(s@, '>', e as int) == first_index_from(
                                s@,
                                '>',
                                a as int,
                            ),
                        decreases s@.len() - e,
                    {
                        e = e + 1;
                    }
                    if e >= s.len() {
                        return false;
                    }
                    let attrs = crate::text::slice_chars(&s, a, e);
                    let text = crate::text::string_from_chars(&attrs);
                    if has_module_type_attribute(text.as_str()) {
                        return true;
                    }
                    i = e + 1;
                }
            },
        }
    }
}

/// Bytes that continue a JavaScript identifier: ASCII letters and digits, `_`
/// and `$`.
pub open spec fn is_identifier(c: char) -> bool {
    is_ascii_alnum(c) || c == '_' || c == '$'
}

/// Whether a byte continues a JavaScript identifier (see [`is_identifier`]).
pub fn is_identifier_byte(byte: u8) -> (r: bool)
    ensures
        r == ((65 <= byte <= 90) || (97 <= byte <= 122) || (48 <= byte <= 57) || byte == 95 || byte
            == 36),
{
    (65 <= byte && byte <= 90) || (97 <= byte && byte <= 122) || (48 <= byte && byte <= 57) || byte
        == 95 || byte == 36
}

/// Whether the text from position `i` on holds `fetch` as a whole word
/// directly followed by white space or `(`.
pub open spec fn fetch_call_from(s: Seq<char>, i: int) -> bool
    decreases s.len() - i,
{
    let start = first_occurrence(s, "fetch"@, i);
    if start < 0 || i < 0 {
        false
    } else {
        proof {
            reveal_strlit("fetch");
            lemma_first_occurrence(s, "fetch"@, i);
        }
        let end = start + 5;
        let before_ok = start == 0 || !is_identifier(s[start - 1]);
        let after_ok = end == s.len() || !is_identifier(s[end]);
        let call_ok = end < s.len() && (is_ascii_ws(s[end]) || s[end] == '(');
        if before_ok && after_ok && call_ok {
            true
        } else {
            fetch_call_from(s, end)
        }
    }
}

/// Whether text calls `fetch` (see [`fetch_call_from`]).
pub fn contains_fetch_call(content: &str) -> (r: bool)
    ensures
        r == fetch_call_from(content@, 0),
{
    let s = chars_of(content);
    let pat = lit("fetch");
    proof {
        reveal_strlit("fetch");
    }
    let mut offset: usize = 0;
    loop
        invariant
            offset <= s@.len(),
            pat@ == "fetch"@,
            pat@.len() == 5,
            s@ == content@,
            fetch_call_from(s@, offset as int) == fetch_call_from(s@, 0),
        decreases s@.len() - offset,
    {
        proof {
            lemma_first_occurrence(s@, pat@, offset as int);
        }
        match find_from(&s, &pat, offset) {
            None => {
                return false;
            },
            Some(start) => {
                let n = s.len();
                assert(start + pat@.len() <= n);
                let end = start + 5;
                let before_ok = start == 0 || !ident_char(s[start - 1]);
                let after_ok = end == s.len() || !ident_char(s[end]);
                let call_ok = end < s.len() && (is_ascii_ws_char(s[end]) || s[end] == '(');
                if before_ok && after_ok && call_ok {
                    return true;
                }
                offset = end;
            },
        }
    }
}

fn ident_char(c: char) -> (r: bool)
    ensures
        r == is_identifier(c),
{
    ('a' <= c && c <= 'z') || ('A' <= c && c <= 'Z') || ('0' <= c && c <= '9') || c == '_' || c
        == '$'
}

/// Whether any of the output files needs HTTP serving: a file that is valid
/// UTF-8 text holding a module script or a `fetch` call.
pub open spec fn needs_http(contents: Seq<Seq<u8>>) -> bool {
    exists|i: int|
        0 <= i < contents.len() && valid_utf8(#[trigger] contents[i]) && (has_module_script(
            decode_utf8(contents[i]),
        ) || fetch_call_from(decode_utf8(contents[i]), 0))
}

/// Detects output that needs an HTTP server, from the bytes of the output
/// files (see [`needs_http`]).
pub fn detect_http_requirement(contents: &Vec<Vec<u8>>) -> (r: bool)
    ensures
        r == needs_http(contents@.map_values(|b: Vec<u8>| b@)),
{
    let ghost cs = contents@.map_values(|b: Vec<u8>| b@);
    let mut i: usize = 0;
    while i < contents.len()
        invariant
            i <= contents@.len(),
            cs == contents@.map_values(|b: Vec<u8>| b@),
            forall|k: int|
                0 <= k < i ==> !(valid_utf8(#[trigger] cs[k]) && (has_module_script(
                    decode_utf8(cs[k]),
                ) || fetch_call_from(decode_utf8(cs[k]), 0))),
        decreases contents@.len() - i,
    {
        assert(cs[i as int] == contents@[i as int]@);
        match decode_text(&contents[i]) {
            Some(text) => {
                if contains_module_script(text.as_str()) || contains_fetch_call(text.as_str()) {
                    return true;
                }
            },
            None => {},
        }
        i = i + 1;
    }
    false
}

} // verus!
