//! The token stylesheet: the DTCG tokens of `tokens/tokens.json` as CSS
//! custom properties in one `:root { ... }` block, named by their paths in
//! kebab case and sorted by name.
//!
//! Alias references inside string values are resolved by the caller, which
//! hands each string value's resolved text in.

use vstd::prelude::*;

use crate::diagnostics::{join, seq_order};
use crate::json::{parse_json, parsed_json, JsonValue};
use crate::scripts::first_member;
use crate::text::{append_chars, append_str, chars_of, lit, string_from_chars};

verus! {

// ---------------------------------------------------------------------------
// Names
// ---------------------------------------------------------------------------

/// What `char::is_uppercase` says of a character.
pub uninterp spec fn upper_char(c: char) -> bool;

/// What `char::is_lowercase` says of a character.
pub uninterp spec fn lower_char(c: char) -> bool;

/// What `char::is_numeric` says of a character.
pub uninterp spec fn numeric_char(c: char) -> bool;

/// The characters of `char::to_lowercase` of a character.
pub uninterp spec fn lowercase_of(c: char) -> Seq<char>;

/// `char::is_uppercase` (Unicode `Uppercase`); named by [`upper_char`].
#[verifier::external_body]
fn is_uppercase(c: char) -> (r: bool)
    ensures
        r == upper_char(c),
{
    c.is_uppercase()
}

/// `char::is_lowercase` (Unicode `Lowercase`); named by [`lower_char`].
#[verifier::external_body]
fn is_lowercase(c: char) -> (r: bool)
    ensures
        r == lower_char(c),
{
    c.is_lowercase()
}

/// `char::is_numeric` (Unicode numeric categories); named by
/// [`numeric_char`].
#[verifier::external_body]
fn is_numeric(c: char) -> (r: bool)
    ensures
        r == numeric_char(c),
{
    c.is_numeric()
}

/// The characters of `char::to_lowercase`; named by [`lowercase_of`].
#[verifier::external_body]
fn to_lowercase(c: char) -> (r: Vec<char>)
    ensures
        r@ == lowercase_of(c),
{
    c.to_lowercase().collect()
}

/// Whether `r` ends with `-`.
pub open spec fn ends_in_dash(r: Seq<char>) -> bool {
    r.len() > 0 && r.last() == '-'
}

/// Kebab case of `s` with whether the last character kept was lower case or
/// numeric: `_` and space become one `-` (none at the start or after
/// another `-`); an upper-case letter is lowered, after a `-` when it
/// follows a lower-case letter or digit; other characters are kept.
pub open spec fn kebab_state(s: Seq<char>) -> (Seq<char>, bool)
    decreases s.len(),
{
    if s.len() == 0 {
        (seq![], false)
    } else {
        let (r, prev) = kebab_state(s.drop_last());
        let c = s.last();
        if c == '_' || c == ' ' {
            (if r.len() > 0 && !ends_in_dash(r) {
                r.push('-')
            } else {
                r
            }, false)
        } else if upper_char(c) {
            (if prev && !ends_in_dash(r) {
                r.push('-')
            } else {
                r
            } + lowercase_of(c), false)
        } else {
            (r.push(c), lower_char(c) || numeric_char(c))
        }
    }
}

/// The kebab case of a token path segment.
pub open spec fn kebab(s: Seq<char>) -> Seq<char> {
    kebab_state(s).0
}

/// Converts a token path segment to kebab case (see [`kebab`]).
pub fn to_kebab_case(s: &str) -> (r: String)
    ensures
        r@ == kebab(s@),
{
    let cs = chars_of(s);
    let mut out: Vec<char> = Vec::new();
    let mut prev = false;
    let mut i: usize = 0;
    while i < cs.len()
        invariant
            i <= cs@.len(),
            cs@ == s@,
            kebab_state(cs@.take(i as int)) == (out@, prev),
        decreases cs@.len() - i,
    {
        let c = cs[i];
        assert(cs@.take(i + 1).drop_last() == cs@.take(i as int));
        assert(cs@.take(i + 1).last() == c);
        let dash = out.len() > 0 && out[out.len() - 1] == '-';
        proof {
            if out@.len() > 0 {
                assert(out@.last() == out@[out@.len() - 1]);
            }
        }
        if c == '_' || c == ' ' {
            if out.len() > 0 && !dash {
                out.push('-');
            }
            prev = false;
        } else if is_uppercase(c) {
            if prev && !dash {
                out.push('-');
            }
            let low = to_lowercase(c);
            append_chars(&mut out, &low);
            prev = false;
        } else {
            out.push(c);
            prev = is_lowercase(c) || is_numeric(c);
        }
        i = i + 1;
    }
    assert(cs@.take(cs@.len() as int) == cs@);
    string_from_chars(&out)
}

/// The non-empty kebab-case segments, in order.
pub open spec fn name_parts(segs: Seq<Seq<char>>) -> Seq<Seq<char>>
    decreases segs.len(),
{
    if segs.len() == 0 {
        seq![]
    } else {
        let p = name_parts(segs.drop_last());
        let k = kebab(segs.last());
        if k.len() > 0 {
            p.push(k)
        } else {
            p
        }
    }
}

/// The custom property name of a token path: `--` and the non-empty
/// kebab-case segments joined with `-`.
pub open spec fn property_name(segs: Seq<Seq<char>>) -> Seq<char> {
    "--"@ + join(name_parts(segs), "-"@)
}

/// The custom property name of a token path (see [`property_name`]).
pub fn format_css_custom_property(segments: &Vec<String>) -> (r: String)
    ensures
        r@ == property_name(crate::pages::texts(segments@)),
{
    let ghost segs = crate::pages::texts(segments@);
    let mut out = lit("--");
    let ghost head = out@;
    let mut count: usize = 0;
    let mut i: usize = 0;
    while i < segments.len()
        invariant
            i <= segments@.len(),
            segs == crate::pages::texts(segments@),
            head == "--"@,
            count == name_parts(segs.take(i as int)).len(),
            count <= i,
            out@ == head + join(name_parts(segs.take(i as int)), "-"@),
        decreases segments@.len() - i,
    {
        assert(segs.take(i + 1).drop_last() == segs.take(i as int));
        assert(segs.take(i + 1).last() == segments@[i as int]@);
        let k = to_kebab_case(segments[i].as_str());
        let kc = chars_of(k.as_str());
        if kc.len() > 0 {
            let ghost parts = name_parts(segs.take(i as int));
            let ghost before = out@;
            if count > 0 {
                append_str(&mut out, "-");
            }
            append_chars(&mut out, &kc);
            proof {
                let np = parts.push(kc@);
                assert(np.drop_last() =~= parts);
                if count > 0 {
                    assert(out@ =~= head + (join(parts, "-"@) + "-"@ + kc@));
                } else {
                    assert(parts.len() == 0);
                    assert(np =~= seq![kc@]);
                    assert(out@ =~= head + kc@);
                }
            }
            count = count + 1;
        }
        i = i + 1;
    }
    assert(segs.take(segments@.len() as int) == segs);
    string_from_chars(&out)
}

// ---------------------------------------------------------------------------
// Collecting the tokens
// ---------------------------------------------------------------------------

/// Whether a key is a DTCG property (`$value`, `$type`, ...) rather than a
/// child.
pub open spec fn is_dollar_key(k: Seq<char>) -> bool {
    k.len() > 0 && k[0] == '$'
}

/// Whether some member is a child.
pub open spec fn has_child(ms: Seq<(String, JsonValue)>) -> bool {
    exists|i: int| 0 <= i < ms.len() && !is_dollar_key((#[trigger] ms[i]).0@)
}

/// An object is a token when it has `$value`, or when it has no child and
/// lies below the root.
pub open spec fn is_token_object(ms: Seq<(String, JsonValue)>, segs: Seq<Seq<char>>) -> bool {
    first_member(ms, "$value"@) is Some || (!has_child(ms) && segs.len() > 0)
}

pub open spec fn member_count(v: JsonValue) -> nat {
    match v {
        JsonValue::Object(ms) => ms@.len(),
        _ => 0,
    }
}

/// The tokens of `v` at path `segs`, in member order: `(property name,
/// value)`. A token object gives its `$value` (none without one); another
/// object gives the tokens of its children (keys without `$`); any other
/// value below the root is a token itself.
pub open spec fn token_entries(v: JsonValue, segs: Seq<Seq<char>>) -> Seq<(Seq<char>, JsonValue)>
    decreases v, member_count(v) + 1,
{
    match v {
        JsonValue::Object(ms) => if is_token_object(ms@, segs) {
            match first_member(ms@, "$value"@) {
                Some(x) => seq![(property_name(segs), x)],
                None => seq![],
            }
        } else {
            child_entries(v, segs, ms@.len() as int)
        },
        _ => if segs.len() > 0 {
            seq![(property_name(segs), v)]
        } else {
            seq![]
        },
    }
}

/// The tokens of the first `n` children of object `v` at path `segs`.
pub open spec fn child_entries(v: JsonValue, segs: Seq<Seq<char>>, n: int) -> Seq<(Seq<char>, JsonValue)>
    decreases v, n,
{
    match v {
        JsonValue::Object(ms) => if n <= 0 || n > ms@.len() {
            seq![]
        } else {
            let prev = child_entries(v, segs, n - 1);
            let k = ms@[n - 1].0@;
            if is_dollar_key(k) {
                prev
            } else {
                proof {
                    assert(decreases_to!(v => ms));
                    assert(decreases_to!(ms => ms@));
                    assert(decreases_to!(ms@ => ms@[n - 1]));
                }
                prev + token_entries(ms@[n - 1].1, segs.push(k))
            }
        },
        _ => seq![],
    }
}

/// A collected token over plain values.
pub open spec fn entry_views<'a>(s: Seq<(String, &'a JsonValue)>) -> Seq<(Seq<char>, JsonValue)> {
    s.map_values(|p: (String, &'a JsonValue)| (p.0@, *p.1))
}

fn extended_path(segs: &Vec<String>, k: &String) -> (r: Vec<String>)
    ensures
        crate::pages::texts(r@) == crate::pages::texts(segs@).push(k@),
{
    let mut out: Vec<String> = Vec::new();
    let mut i: usize = 0;
    while i < segs.len()
        invariant
            i <= segs@.len(),
            crate::pages::texts(out@) == crate::pages::texts(segs@).take(i as int),
        decreases segs@.len() - i,
    {
        let ghost before = crate::pages::texts(out@);
        out.push(segs[i].clone());
        assert(crate::pages::texts(out@) =~= before.push(segs@[i as int]@));
        assert(crate::pages::texts(segs@).take(i + 1) =~= crate::pages::texts(segs@).take(i as int).push(
            segs@[i as int]@,
        ));
        i = i + 1;
    }
    let ghost before = crate::pages::texts(out@);
    out.push(k.clone());
    assert(crate::pages::texts(out@) =~= before.push(k@));
    assert(crate::pages::texts(segs@).take(segs@.len() as int) == crate::pages::texts(segs@));
    out
}

fn is_dollar(k: &String) -> (r: bool)
    ensures
        r == is_dollar_key(k@),
{
    let kc = chars_of(k.as_str());
    kc.len() > 0 && kc[0] == '$'
}

fn any_child(ms: &Vec<(String, JsonValue)>) -> (r: bool)
    ensures
        r == has_child(ms@),
{
    let mut i: usize = 0;
    while i < ms.len()
        invariant
            i <= ms@.len(),
            forall|j: int| 0 <= j < i ==> is_dollar_key((#[trigger] ms@[j]).0@),
        decreases ms@.len() - i,
    {
        if !is_dollar(&ms[i].0) {
            assert(!is_dollar_key(ms@[i as int].0@));
            return true;
        }
        i = i + 1;
    }
    false
}

/// Appends the tokens of `v` at path `segs` to `out` (see
/// [`token_entries`]).
fn collect_tokens<'a>(v: &'a JsonValue, segs: &Vec<String>, out: &mut Vec<(String, &'a JsonValue)>)
    ensures
        entry_views(final(out)@) == entry_views(old(out)@) + token_entries(*v, crate::pages::texts(segs@)),
    decreases *v,
{
    let ghost ss = crate::pages::texts(segs@);
    match v {
        JsonValue::Object(ms) => {
            let value = crate::scripts::get_member(v, "$value");
            let child = any_child(ms);
            proof {
                reveal_strlit("$value");
            }
            if value.is_some() || (!child && segs.len() > 0) {
                match value {
                    Some(x) => {
                        let name = format_css_custom_property(segs);
                        let ghost before = entry_views(out@);
                        out.push((name, x));
                        assert(entry_views(out@) =~= before + seq![(property_name(ss), *x)]);
                    },
                    None => {
                        assert(entry_views(out@) =~= entry_views(out@) + Seq::<(Seq<char>, JsonValue)>::empty());
                    },
                }
            } else {
                let ghost start = entry_views(out@);
                let mut i: usize = 0;
                assert(start =~= start + child_entries(*v, ss, 0));
                while i < ms.len()
                    invariant
                        i <= ms@.len(),
                        *v == JsonValue::Object(*ms),
                        ss == crate::pages::texts(segs@),
                        entry_views(out@) == start + child_entries(*v, ss, i as int),
                    decreases ms@.len() - i,
                {
                    let ghost prev = child_entries(*v, ss, i as int);
                    if !is_dollar(&ms[i].0) {
                        let path = extended_path(segs, &ms[i].0);
                        proof {
                            assert(decreases_to!(*v => *ms));
                            assert(decreases_to!(*ms => ms@));
                            assert(decreases_to!(ms@ => ms@[i as int]));
                        }
                        collect_tokens(&ms[i].1, &path, out);
                        assert(start + prev + token_entries(ms@[i as int].1, ss.push(ms@[i as int].0@)) =~= start + (
                        prev + token_entries(ms@[i as int].1, ss.push(ms@[i as int].0@))));
                    }
                    i = i + 1;
                }
            }
        },
        _ => {
            if segs.len() > 0 {
                let name = format_css_custom_property(segs);
                let ghost before = entry_views(out@);
                out.push((name, v));
                assert(entry_views(out@) =~= before + seq![(property_name(ss), *v)]);
            } else {
                assert(entry_views(out@) =~= entry_views(out@) + Seq::<(Seq<char>, JsonValue)>::empty());
            }
        },
    }
}

// ---------------------------------------------------------------------------
// Values
// ---------------------------------------------------------------------------

/// The resolved text of string value `s`: the text paired with it in
/// `resolved` (the first such pair), or `s` itself.
pub open spec fn resolved_text(resolved: Seq<(Seq<char>, Seq<char>)>, s: Seq<char>) -> Seq<char>
    decreases resolved.len(),
{
    if resolved.len() == 0 {
        s
    } else if resolved[0].0 == s {
        resolved[0].1
    } else {
        resolved_text(resolved.drop_first(), s)
    }
}

pub open spec fn item_count(v: JsonValue) -> nat {
    match v {
        JsonValue::Array(items) => items@.len(),
        _ => 0,
    }
}

/// The CSS text of a token value: a string resolved, a number as written,
/// `true` or `false`, an array's items joined with `, `, and nothing for
/// `null` or an object.
pub open spec fn value_css(v: JsonValue, resolved: Seq<(Seq<char>, Seq<char>)>) -> Seq<char>
    decreases v, item_count(v) + 1,
{
    match v {
        JsonValue::String(s) => resolved_text(resolved, s@),
        JsonValue::Number(n) => n@,
        JsonValue::Bool(b) => if b {
            "true"@
        } else {
            "false"@
        },
        JsonValue::Array(items) => items_css(v, resolved, items@.len() as int),
        _ => seq![],
    }
}

/// The CSS texts of the first `n` items of array `v`, joined with `, `.
pub open spec fn items_css(v: JsonValue, resolved: Seq<(Seq<char>, Seq<char>)>, n: int) -> Seq<char>
    decreases v, n,
{
    match v {
        JsonValue::Array(items) => if n <= 0 || n > items@.len() {
            seq![]
        } else {
            proof {
                assert(decreases_to!(v => items));
                assert(decreases_to!(items => items@));
                assert(decreases_to!(items@ => items@[n - 1]));
            }
            if n == 1 {
                value_css(items@[0], resolved)
            } else {
                items_css(v, resolved, n - 1) + ", "@ + value_css(items@[n - 1], resolved)
            }
        },
        _ => seq![],
    }
}

/// The string values whose resolution the CSS text of `v` reads, in order.
pub open spec fn value_strings(v: JsonValue) -> Seq<Seq<char>>
    decreases v, item_count(v) + 1,
{
    match v {
        JsonValue::String(s) => seq![s@],
        JsonValue::Array(items) => items_strings(v, items@.len() as int),
        _ => seq![],
    }
}

/// The string values read by the first `n` items of array `v`.
pub open spec fn items_strings(v: JsonValue, n: int) -> Seq<Seq<char>>
    decreases v, n,
{
    match v {
        JsonValue::Array(items) => if n <= 0 || n > items@.len() {
            seq![]
        } else {
            proof {
                assert(decreases_to!(v => items));
                assert(decreases_to!(items => items@));
                assert(decreases_to!(items@ => items@[n - 1]));
            }
            items_strings(v, n - 1) + value_strings(items@[n - 1])
        },
        _ => seq![],
    }
}

fn lookup(resolved: &Vec<(String, String)>, s: &String) -> (r: Vec<char>)
    ensures
        r@ == resolved_text(crate::pages::string_pairs(resolved@), s@),
{
    let ghost rs = crate::pages::string_pairs(resolved@);
    let sc = chars_of(s.as_str());
    let mut i: usize = 0;
    assert(rs.skip(0) == rs);
    while i < resolved.len()
        invariant
            i <= resolved@.len(),
            rs == crate::pages::string_pairs(resolved@),
            sc@ == s@,
            resolved_text(rs.skip(i as int), s@) == resolved_text(rs, s@),
        decreases resolved@.len() - i,
    {
        assert(rs.skip(i as int)[0] == rs[i as int]);
        assert(rs.skip(i as int).drop_first() =~= rs.skip(i + 1));
        let k = chars_of(resolved[i].0.as_str());
        if crate::text::chars_eq(&k, &sc) {
            return chars_of(resolved[i].1.as_str());
        }
        i = i + 1;
    }
    assert(rs.skip(i as int) =~= Seq::<(Seq<char>, Seq<char>)>::empty());
    sc
}

/// The CSS text of a token value (see [`value_css`]).
fn value_to_css_string(v: &JsonValue, resolved: &Vec<(String, String)>) -> (r: Vec<char>)
    ensures
        r@ == value_css(*v, crate::pages::string_pairs(resolved@)),
    decreases *v,
{
    let ghost rs = crate::pages::string_pairs(resolved@);
    match v {
        JsonValue::String(s) => lookup(resolved, s),
        JsonValue::Number(n) => chars_of(n.as_str()),
        JsonValue::Bool(b) => {
            proof {
                reveal_strlit("true");
                reveal_strlit("false");
            }
            if *b {
                lit("true")
            } else {
                lit("false")
            }
        },
        JsonValue::Array(items) => {
            let mut out: Vec<char> = Vec::new();
            let mut i: usize = 0;
            while i < items.len()
                invariant
                    i <= items@.len(),
                    *v == JsonValue::Array(*items),
                    rs == crate::pages::string_pairs(resolved@),
                    out@ == items_css(*v, rs, i as int),
                decreases items@.len() - i,
            {
                proof {
                    assert(decreases_to!(*v => *items));
                    assert(decreases_to!(*items => items@));
                    assert(decreases_to!(items@ => items@[i as int]));
                }
                let t = value_to_css_string(&items[i], resolved);
                if i > 0 {
                    append_str(&mut out, ", ");
                }
                append_chars(&mut out, &t);
                i = i + 1;
            }
            out
        },
        _ => Vec::new(),
    }
}

fn push_value_strings(v: &JsonValue, out: &mut Vec<String>)
    ensures
        crate::pages::texts(final(out)@) == crate::pages::texts(old(out)@) + value_strings(*v),
    decreases *v,
{
    match v {
        JsonValue::String(s) => {
            let ghost before = crate::pages::texts(out@);
            out.push(s.clone());
            assert(crate::pages::texts(out@) =~= before + seq![s@]);
        },
        JsonValue::Array(items) => {
            let ghost start = crate::pages::texts(out@);
            let mut i: usize = 0;
            assert(start =~= start + items_strings(*v, 0));
            while i < items.len()
                invariant
                    i <= items@.len(),
                    *v == JsonValue::Array(*items),
                    crate::pages::texts(out@) == start + items_strings(*v, i as int),
                decreases items@.len() - i,
            {
                proof {
                    assert(decreases_to!(*v => *items));
                    assert(decreases_to!(*items => items@));
                    assert(decreases_to!(items@ => items@[i as int]));
                }
                let ghost prev = items_strings(*v, i as int);
                push_value_strings(&items[i], out);
                assert(start + prev + value_strings(items@[i as int]) =~= start + (prev + value_strings(items@[i as int])));
                i = i + 1;
            }
        },
        _ => {
            assert(crate::pages::texts(out@) =~= crate::pages::texts(out@) + Seq::<Seq<char>>::empty());
        },
    }
}

// ---------------------------------------------------------------------------
// The stylesheet
// ---------------------------------------------------------------------------

/// The properties `(name, CSS text)` of the collected tokens, in order.
pub open spec fn css_properties(
    entries: Seq<(Seq<char>, JsonValue)>,
    resolved: Seq<(Seq<char>, Seq<char>)>,
) -> Seq<(Seq<char>, Seq<char>)> {
    entries.map_values(|e: (Seq<char>, JsonValue)| (e.0, value_css(e.1, resolved)))
}

/// `ps` sorted with `x` added after every property whose name does not
/// follow `x`'s.
pub open spec fn insert_property(ps: Seq<(Seq<char>, Seq<char>)>, x: (Seq<char>, Seq<char>)) -> Seq<
    (Seq<char>, Seq<char>),
>
    decreases ps.len(),
{
    if ps.len() == 0 {
        seq![x]
    } else if seq_order(ps.last().0, x.0) <= 0 {
        ps.push(x)
    } else {
        insert_property(ps.drop_last(), x).push(ps.last())
    }
}

/// The properties sorted by name; equal names keep their order.
pub open spec fn sort_properties(ps: Seq<(Seq<char>, Seq<char>)>) -> Seq<(Seq<char>, Seq<char>)>
    decreases ps.len(),
{
    if ps.len() == 0 {
        seq![]
    } else {
        insert_property(sort_properties(ps.drop_last()), ps.last())
    }
}

/// One line per property: `  name: value;`.
pub open spec fn property_lines(ps: Seq<(Seq<char>, Seq<char>)>) -> Seq<char>
    decreases ps.len(),
{
    if ps.len() == 0 {
        seq![]
    } else {
        property_lines(ps.drop_last()) + "  "@ + ps.last().0 + ": "@ + ps.last().1 + ";\n"@
    }
}

/// The token stylesheet of the token tree `root`, the string values
/// resolved as `resolved` pairs them: a `:root` block of the properties
/// sorted by name.
pub open spec fn token_stylesheet(root: JsonValue, resolved: Seq<(Seq<char>, Seq<char>)>) -> Seq<char> {
    ":root {\n"@ + property_lines(sort_properties(css_properties(token_entries(root, seq![]), resolved)))
        + "}\n"@
}

/// The string values that the stylesheet of `entries` reads, in order.
pub open spec fn entries_strings(entries: Seq<(Seq<char>, JsonValue)>) -> Seq<Seq<char>>
    decreases entries.len(),
{
    if entries.len() == 0 {
        seq![]
    } else {
        entries_strings(entries.drop_last()) + value_strings(entries.last().1)
    }
}

proof fn lemma_insert_property_at(ps: Seq<(Seq<char>, Seq<char>)>, x: (Seq<char>, Seq<char>), j: int)
    requires
        0 <= j <= ps.len(),
        j == 0 || seq_order(ps[j - 1].0, x.0) <= 0,
        forall|k: int| j <= k < ps.len() ==> seq_order((#[trigger] ps[k]).0, x.0) > 0,
    ensures
        insert_property(ps, x) == ps.insert(j, x),
    decreases ps.len(),
{
    if ps.len() == 0 {
        assert(ps.insert(j, x) =~= seq![x]);
    } else if j == ps.len() {
        assert(ps.last() == ps[j - 1]);
        assert(ps.insert(j, x) =~= ps.push(x));
    } else {
        let d = ps.drop_last();
        assert(seq_order(ps[ps.len() - 1].0, x.0) > 0);
        assert forall|k: int| j <= k < d.len() implies seq_order((#[trigger] d[k]).0, x.0) > 0 by {
            assert(d[k] == ps[k]);
        }
        if j > 0 {
            assert(d[j - 1] == ps[j - 1]);
        }
        lemma_insert_property_at(d, x, j);
        assert(d.insert(j, x).push(ps.last()) =~= ps.insert(j, x));
    }
}

fn insert_sorted(ps: &mut Vec<(Vec<char>, Vec<char>)>, x: (Vec<char>, Vec<char>))
    ensures
        pair_views(final(ps)@) == insert_property(pair_views(old(ps)@), (x.0@, x.1@)),
{
    let ghost xv = (x.0@, x.1@);
    let mut j = ps.len();
    while j > 0 && crate::diagnostics::compare_chars(&ps[j - 1].0, &x.0) > 0
        invariant
            j <= ps@.len(),
            xv == (x.0@, x.1@),
            forall|k: int| j <= k < ps@.len() ==> seq_order((#[trigger] pair_views(ps@)[k]).0, xv.0) > 0,
        decreases j,
    {
        assert(pair_views(ps@)[j - 1] == (ps@[j - 1].0@, ps@[j - 1].1@));
        j = j - 1;
    }
    proof {
        if j > 0 {
            assert(seq_order(pair_views(ps@)[j - 1].0, xv.0) <= 0);
        }
        lemma_insert_property_at(pair_views(ps@), xv, j as int);
    }
    let ghost before = ps@;
    ps.insert(j, x);
    assert(pair_views(ps@) =~= pair_views(before).insert(j as int, xv));
}

pub open spec fn pair_views(ps: Seq<(Vec<char>, Vec<char>)>) -> Seq<(Seq<char>, Seq<char>)> {
    ps.map_values(|p: (Vec<char>, Vec<char>)| (p.0@, p.1@))
}

/// The string values of the token tree `root` whose resolution its
/// stylesheet reads, in order (see [`entries_strings`]); the caller
/// resolves their aliases.
pub fn token_strings(root: &JsonValue) -> (r: Vec<String>)
    ensures
        crate::pages::texts(r@) == entries_strings(token_entries(*root, seq![])),
{
    let mut entries: Vec<(String, &JsonValue)> = Vec::new();
    let segs: Vec<String> = Vec::new();
    assert(crate::pages::texts(segs@) =~= Seq::<Seq<char>>::empty());
    collect_tokens(root, &segs, &mut entries);
    let ghost es = entry_views(entries@);
    assert(es =~= token_entries(*root, seq![]));
    let mut out: Vec<String> = Vec::new();
    let mut i: usize = 0;
    while i < entries.len()
        invariant
            i <= entries@.len(),
            es == entry_views(entries@),
            crate::pages::texts(out@) == entries_strings(es.take(i as int)),
        decreases entries@.len() - i,
    {
        assert(es.take(i + 1).drop_last() =~= es.take(i as int));
        assert(es.take(i + 1).last() == (entries@[i as int].0@, *entries@[i as int].1));
        push_value_strings(entries[i].1, &mut out);
        i = i + 1;
    }
    assert(es.take(entries@.len() as int) == es);
    out
}

/// The token stylesheet of the token tree `root`, each string value taking
/// the text `resolved` pairs it with (itself when it has none; see
/// [`token_stylesheet`]).
pub fn emit_token_stylesheet(root: &JsonValue, resolved: &Vec<(String, String)>) -> (r: String)
    ensures
        r@ == token_stylesheet(*root, crate::pages::string_pairs(resolved@)),
{
    let ghost rs = crate::pages::string_pairs(resolved@);
    let mut entries: Vec<(String, &JsonValue)> = Vec::new();
    let segs: Vec<String> = Vec::new();
    assert(crate::pages::texts(segs@) =~= Seq::<Seq<char>>::empty());
    collect_tokens(root, &segs, &mut entries);
    let ghost es = entry_views(entries@);
    assert(es =~= token_entries(*root, seq![]));
    let ghost props = css_properties(es, rs);
    let mut sorted: Vec<(Vec<char>, Vec<char>)> = Vec::new();
    let mut i: usize = 0;
    while i < entries.len()
        invariant
            i <= entries@.len(),
            es == entry_views(entries@),
            props == css_properties(es, rs),
            rs == crate::pages::string_pairs(resolved@),
            pair_views(sorted@) == sort_properties(props.take(i as int)),
        decreases entries@.len() - i,
    {
        assert(props.take(i + 1).drop_last() =~= props.take(i as int));
        let name = chars_of(entries[i].0.as_str());
        let value = value_to_css_string(entries[i].1, resolved);
        assert(props.take(i + 1).last() == (name@, value@));
        insert_sorted(&mut sorted, (name, value));
        i = i + 1;
    }
    assert(props.take(entries@.len() as int) == props);
    let mut css = lit(":root {\n");
    let ghost head = css@;
    let ghost ps = pair_views(sorted@);
    let mut k: usize = 0;
    while k < sorted.len()
        invariant
            k <= sorted@.len(),
            ps == pair_views(sorted@),
            css@ == head + property_lines(ps.take(k as int)),
        decreases sorted@.len() - k,
    {
        let ghost before = css@;
        append_str(&mut css, "  ");
        append_chars(&mut css, &sorted[k].0);
        append_str(&mut css, ": ");
        append_chars(&mut css, &sorted[k].1);
        append_str(&mut css, ";\n");
        assert(ps.take(k + 1).drop_last() =~= ps.take(k as int));
        assert(ps.take(k + 1).last() == ps[k as int]);
        assert(css@ =~= head + (property_lines(ps.take(k as int)) + "  "@ + ps[k as int].0 + ": "@ + ps[k as int].1
            + ";\n"@));
        k = k + 1;
    }
    assert(ps.take(sorted@.len() as int) == ps);
    append_str(&mut css, "}\n");
    string_from_chars(&css)
}

/// Parses the text of `tokens/tokens.json` (see [`parsed_json`]).
pub fn parse_token_file(text: &str) -> (r: Result<JsonValue, String>)
    ensures
        match (r, parsed_json(text@)) {
            (Ok(v), Ok(w)) => v == w,
            (Err(e), Err(m)) => e@ == m,
            _ => false,
        },
{
    parse_json(text)
}

} // verus!
